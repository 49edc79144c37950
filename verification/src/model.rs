//! The rules of the game, as a mathematical model: what a state is, and
//! what each step makes of it.

use crate::position::Vec2;
use crate::sequences::other_than;
use vstd::prelude::*;

verus! {

/// The highest frame index of a session.
pub const LAST_FRAME: usize = 1023;

/// Whole frames that lie between two shots of the ship.
pub const SHIP_COOLDOWN: usize = 15;

/// Whole frames that lie between two steps of the enemy shots.
pub const ENEMY_SHOT_PERIOD: usize = 5;

/// Whole frames that lie between two moves of the formation.
pub const FORMATION_PERIOD: usize = 20;

/// Enemies open fire only on frames that are multiples of this.
pub const VOLLEY_PERIOD: usize = 66;

/// Points gained for one destroyed enemy.
pub const KILL_POINTS: u8 = 5;

/// Damage dealt by an enemy that reaches the ship.
pub const COLLISION_DAMAGE: usize = 1000;

/// Columns kept free on each side of the formation at the start.
pub const FORMATION_MARGIN: i32 = 25;

/// The position `dx` columns to the right of `p` and `dy` rows below it.
pub open spec fn shifted(p: Vec2, dx: int, dy: int) -> Vec2 {
    Vec2 { x: (p.x + dx) as i32, y: (p.y + dy) as i32 }
}

/// Whether `p` can be moved `moves` times by one step without leaving `i32`.
pub open spec fn has_room(p: Vec2, moves: int) -> bool {
    &&& i32::MIN + moves <= p.x <= i32::MAX - moves
    &&& i32::MIN + moves <= p.y <= i32::MAX - moves
}

/// Whether a move can stand in the log of a session: made on a frame of the
/// session, to the left (0) or to the right (1).
pub open spec fn loggable(action: (u16, u8)) -> bool {
    action.0 <= LAST_FRAME && action.1 < 2
}

/// The move by `dx` columns and `dy` rows.
pub open spec fn shift_by(dx: int, dy: int) -> spec_fn(Vec2) -> Vec2 {
    |p: Vec2| shifted(p, dx, dy)
}

/// The squares above row `bottom`.
pub open spec fn above_row(bottom: int) -> spec_fn(Vec2) -> bool {
    |p: Vec2| p.y < bottom
}

/// The squares from which a shot reaches a ship at `ship`.
pub open spec fn touching(ship: Vec2) -> spec_fn(Vec2) -> bool {
    |p: Vec2| ship.touches(p)
}

/// The squares from which a shot misses a ship at `ship`.
pub open spec fn clear_of(ship: Vec2) -> spec_fn(Vec2) -> bool {
    |p: Vec2| !ship.touches(p)
}

/// Whether an enemy on this square fires when a volley is due.
pub open spec fn is_gunner(a: Vec2) -> bool {
    a.x % 6 == 0 && a.y % 4 == 0
}

/// The squares whose enemies fire when a volley is due.
pub open spec fn gunners() -> spec_fn(Vec2) -> bool {
    |p: Vec2| is_gunner(p)
}

/// What the player's shots leave behind once each has met the formation.
pub struct ShotOutcome {
    /// The shots still in flight, in their old order.
    pub shots: Seq<Vec2>,
    /// The enemies that survive, in their old order.
    pub aliens: Seq<Vec2>,
    /// How many shots destroyed something.
    pub hits: nat,
}

/// Lets the shots meet the formation one after the other, oldest first.
///
/// A shot on row 1 leaves the field. Any other shot that stands exactly on a
/// surviving enemy destroys every enemy on that square and is spent.
pub open spec fn resolve_shots(shots: Seq<Vec2>, aliens: Seq<Vec2>) -> ShotOutcome
    decreases shots.len(),
{
    if shots.len() == 0 {
        ShotOutcome { shots: Seq::empty(), aliens, hits: 0 }
    } else {
        let before = resolve_shots(shots.drop_last(), aliens);
        let shot = shots.last();
        if shot.y == 1 {
            before
        } else if before.aliens.contains(shot) {
            ShotOutcome {
                shots: before.shots,
                aliens: before.aliens.filter(other_than(shot)),
                hits: before.hits + 1,
            }
        } else {
            ShotOutcome { shots: before.shots.push(shot), aliens: before.aliens, hits: before.hits }
        }
    }
}

/// Whether `x` is the smallest column that an enemy stands on.
pub open spec fn is_leftmost(aliens: Seq<Vec2>, x: int) -> bool {
    &&& exists|i: int| 0 <= i < aliens.len() && #[trigger] aliens[i].x == x
    &&& forall|i: int| 0 <= i < aliens.len() ==> #[trigger] aliens[i].x >= x
}

/// Whether `x` is the largest column that an enemy stands on.
pub open spec fn is_rightmost(aliens: Seq<Vec2>, x: int) -> bool {
    &&& exists|i: int| 0 <= i < aliens.len() && #[trigger] aliens[i].x == x
    &&& forall|i: int| 0 <= i < aliens.len() ==> #[trigger] aliens[i].x <= x
}

/// Whether the formation touches the left or the right edge of a field of this width.
pub open spec fn at_edge(aliens: Seq<Vec2>, width: int) -> bool {
    is_leftmost(aliens, 0) || is_rightmost(aliens, width)
}

/// The score after `hits` kills: five points each, held at 255.
pub open spec fn score_after(score: int, hits: int) -> int {
    if score + KILL_POINTS * hits > u8::MAX {
        u8::MAX as int
    } else {
        score + KILL_POINTS * hits
    }
}

/// Whether a session can be played on a field of this size: the ship's row
/// lies below the top row, and a formation has room for every move of a session.
pub open spec fn valid_arena(dimension: Vec2) -> bool {
    0 <= dimension.x <= i32::MAX - LAST_FRAME && 3 <= dimension.y
}

/// The first odd column at or right of `margin`.
pub open spec fn first_odd(margin: int) -> int {
    if margin % 2 == 0 {
        margin + 1
    } else {
        margin
    }
}

/// How many odd columns lie at or right of `margin` and left of `end`.
pub open spec fn odd_count(margin: int, end: int) -> int {
    if end <= first_odd(margin) {
        0
    } else {
        (end - first_odd(margin) + 1) / 2
    }
}

/// One row of a fresh formation: an enemy on every odd column that keeps
/// `margin` columns free on both sides, from left to right.
pub open spec fn formation_row(width: int, margin: int, y: int) -> Seq<Vec2> {
    Seq::new(
        odd_count(margin, width - margin) as nat,
        |k: int| Vec2 { x: (first_odd(margin) + 2 * k) as i32, y: y as i32 },
    )
}

/// A fresh formation: rows 3 to 6, from the top down.
pub open spec fn fresh_formation(width: int, margin: int) -> Seq<Vec2> {
    formation_row(width, margin, 3) + formation_row(width, margin, 4) + formation_row(
        width,
        margin,
        5,
    ) + formation_row(width, margin, 6)
}

/// Where a session stands.
#[derive(Debug, Clone, Copy, PartialEq, Eq, Structural)]
pub enum GameStatus {
    /// Enemies and lives are left, and so are frames.
    Playing,
    /// No enemy is left.
    Won,
    /// Enemies are left, and no life.
    Lost,
    /// Enemies and lives are left, and no frame.
    TimedOut,
}

/// The mathematical value of a `GameState`.
pub struct GameModel {
    pub dimension: Vec2,
    pub spaceship: Vec2,
    pub spaceship_shots: Seq<Vec2>,
    pub last_shot_frame: int,
    pub aliens: Seq<Vec2>,
    pub aliens_shots: Seq<Vec2>,
    pub direction: int,
    pub just_descended: bool,
    pub last_aliens_movement: int,
    pub last_aliens_shots: int,
    pub lives: int,
    pub score: int,
    pub user_input: Seq<(u16, u8)>,
}

impl GameModel {
    /// The state in which a session starts.
    pub open spec fn fresh(dimension: Vec2, margin: int) -> GameModel {
        GameModel {
            dimension,
            spaceship: Vec2 { x: (dimension.x / 2) as i32, y: (dimension.y - 2) as i32 },
            spaceship_shots: Seq::empty(),
            last_shot_frame: 0,
            aliens: fresh_formation(dimension.x as int, margin),
            aliens_shots: Seq::empty(),
            direction: 1,
            just_descended: false,
            last_aliens_movement: 0,
            last_aliens_shots: 0,
            lives: 1,
            score: 0,
            user_input: Seq::empty(),
        }
    }

    /// Formation moves that can still happen before the last frame.
    pub open spec fn moves_left(self) -> int {
        LAST_FRAME - self.last_aliens_movement
    }

    /// The invariant of a session: the ship is inside the arena and not
    /// above row 1, nor is any of its shots, the formation moves one column
    /// at a time, no timer is ahead of the last frame, every enemy has room
    /// for the moves that remain, and every logged move can be written to a
    /// trace.
    pub open spec fn wf(self) -> bool {
        &&& 0 <= self.spaceship.x <= self.dimension.x
        &&& 1 <= self.spaceship.y
        &&& forall|i: int|
            0 <= i < self.spaceship_shots.len() ==> (#[trigger] self.spaceship_shots[i]).y >= 1
        &&& self.direction == 1 || self.direction == -1
        &&& 0 <= self.last_shot_frame <= LAST_FRAME
        &&& 0 <= self.last_aliens_shots <= LAST_FRAME
        &&& 0 <= self.last_aliens_movement <= LAST_FRAME
        &&& forall|i: int|
            0 <= i < self.aliens.len() ==> has_room(#[trigger] self.aliens[i], self.moves_left())
        &&& 0 <= self.lives <= usize::MAX
        &&& 0 <= self.score <= u8::MAX
        &&& forall|i: int| 0 <= i < self.user_input.len() ==> loggable(#[trigger] self.user_input[i])
    }

    /// Where the session stands before frame `frame` is played.
    pub open spec fn status(self, frame: int) -> GameStatus {
        if self.aliens.len() == 0 {
            GameStatus::Won
        } else if self.lives == 0 {
            GameStatus::Lost
        } else if frame >= LAST_FRAME {
            GameStatus::TimedOut
        } else {
            GameStatus::Playing
        }
    }

    /// The state after the ship was asked to move by `displacement` columns:
    /// unchanged where the ship stands on the edge it would leave by.
    pub open spec fn move_ship(self, displacement: int) -> GameModel {
        if (displacement < 0 && self.spaceship.x != 0) || (displacement > 0 && self.spaceship.x
            != self.dimension.x) {
            GameModel { spaceship: shifted(self.spaceship, displacement, 0), ..self }
        } else {
            self
        }
    }

    /// Whether the ship may fire on `frame`.
    pub open spec fn can_fire(self, frame: int) -> bool {
        self.last_shot_frame + SHIP_COOLDOWN < frame
    }

    /// The state after the ship was asked to fire on `frame`.
    pub open spec fn fire(self, frame: int) -> GameModel {
        if self.can_fire(frame) {
            GameModel {
                spaceship_shots: self.spaceship_shots.push(self.spaceship),
                last_shot_frame: frame,
                ..self
            }
        } else {
            self
        }
    }

    /// The state after the player's move on `frame` was made and logged.
    pub open spec fn steer(self, frame: int, direction: u8) -> GameModel {
        let moved = self.move_ship(
            if direction == 0 {
                -1
            } else {
                1
            },
        );
        GameModel { user_input: self.user_input.push((frame as u16, direction)), ..moved }
    }

    /// The state after the player's moves on `frame` were made and logged, in order.
    pub open spec fn steer_all(self, frame: int, moves: Seq<u8>) -> GameModel
        decreases moves.len(),
    {
        if moves.len() == 0 {
            self
        } else {
            self.steer_all(frame, moves.drop_last()).steer(frame, moves.last())
        }
    }

    /// First part of a frame: the player's shots meet the formation, the
    /// kills are scored, and the shots still in flight rise by one row.
    pub open spec fn after_ship_shots(self) -> GameModel {
        let outcome = resolve_shots(self.spaceship_shots, self.aliens);
        GameModel {
            spaceship_shots: outcome.shots.map_values(shift_by(0, -1)),
            aliens: outcome.aliens,
            score: score_after(self.score, outcome.hits as int),
            ..self
        }
    }

    /// Whether the enemy shots take a step on `frame`.
    pub open spec fn enemy_shots_due(self, frame: int) -> bool {
        self.last_aliens_shots + ENEMY_SHOT_PERIOD < frame
    }

    /// The enemy shots in flight once the gunners have fired on `frame`.
    pub open spec fn with_volley(self, frame: int) -> Seq<Vec2> {
        if frame % (VOLLEY_PERIOD as int) == 0 {
            self.aliens_shots + self.aliens.filter(gunners())
        } else {
            self.aliens_shots
        }
    }

    /// Second part of a frame: when a step is due, the gunners fire, shots
    /// on or below the bottom row leave, and the others fall by one row.
    pub open spec fn after_enemy_fire(self, frame: int) -> GameModel {
        if self.enemy_shots_due(frame) {
            GameModel {
                last_aliens_shots: frame,
                aliens_shots: self.with_volley(frame).filter(
                    above_row(self.dimension.y as int),
                ).map_values(shift_by(0, 1)),
                ..self
            }
        } else {
            self
        }
    }

    /// Whether an enemy stands next to the ship or on it.
    pub open spec fn collides(self) -> bool {
        exists|i: int| 0 <= i < self.aliens.len() && self.spaceship.touches(#[trigger] self.aliens[i])
    }

    /// The damage that the ship takes in this state.
    pub open spec fn damage(self) -> int {
        if self.collides() {
            COLLISION_DAMAGE as int
        } else {
            self.aliens_shots.filter(touching(self.spaceship)).len() as int
        }
    }

    /// Third and fourth part of a frame: enemy shots that reach the ship are
    /// spent, and the damage is taken from the lives.
    pub open spec fn after_damage(self) -> GameModel {
        let damage = self.damage();
        GameModel {
            aliens_shots: self.aliens_shots.filter(clear_of(self.spaceship)),
            lives: if damage >= self.lives {
                0
            } else {
                self.lives - damage
            },
            ..self
        }
    }

    /// Whether the formation moves on `frame`.
    pub open spec fn formation_due(self, frame: int) -> bool {
        self.aliens.len() > 0 && self.last_aliens_movement + FORMATION_PERIOD < frame
    }

    /// Last part of a frame: when a move is due, a formation at an edge
    /// descends by one row, or, if it has just done so, turns round and takes
    /// a step away; a formation elsewhere takes a step in its direction.
    pub open spec fn after_formation(self, frame: int) -> GameModel {
        if self.formation_due(frame) {
            if at_edge(self.aliens, self.dimension.x as int) {
                if self.just_descended {
                    let turned = -self.direction;
                    GameModel {
                        last_aliens_movement: frame,
                        direction: turned,
                        just_descended: false,
                        aliens: self.aliens.map_values(shift_by(turned, 0)),
                        ..self
                    }
                } else {
                    GameModel {
                        last_aliens_movement: frame,
                        just_descended: true,
                        aliens: self.aliens.map_values(shift_by(0, 1)),
                        ..self
                    }
                }
            } else {
                let step = self.direction;
                GameModel {
                    last_aliens_movement: frame,
                    aliens: self.aliens.map_values(shift_by(step, 0)),
                    ..self
                }
            }
        } else {
            self
        }
    }

    /// The state one frame later.
    pub open spec fn advance(self, frame: int) -> GameModel {
        self.after_ship_shots().after_enemy_fire(frame).after_damage().after_formation(frame)
    }

    /// The state after one frame of play: the player's moves are made and
    /// logged, the ship fires if it may, and the session advances.
    pub open spec fn play(self, frame: int, moves: Seq<u8>) -> GameModel {
        self.steer_all(frame, moves).fire(frame).advance(frame)
    }
}

} // verus!
