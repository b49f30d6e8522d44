//! The cube puzzle game: score and move counters around a `PuzzleLogic`, and
//! the session handle that a host drives through status codes.
use vstd::prelude::*;
use crate::puzzle::{move_allowed, move_fits, PuzzleLogic};

verus! {

/// A running cube puzzle with its score and the number of accepted moves.
pub struct GameState {
    pub score: u32,
    pub moves: u32,
    pub puzzle: PuzzleLogic,
}

impl GameState {
    /// No score, no moves, a fresh level.
    pub open spec fn is_fresh(&self) -> bool {
        self.score == 0 && self.moves == 0 && self.puzzle.is_fresh_level()
    }

    pub fn new() -> (r: Self)
        ensures
            r.is_fresh(),
    {
        GameState { score: 0, moves: 0, puzzle: PuzzleLogic::new() }
    }

    /// Moves a cube through the puzzle; an accepted move sets the move
    /// counter to the puzzle's own count. Returns whether the cube moved.
    pub fn move_cube(&mut self, cube_id: u32, delta_position: (i32, i32, i32)) -> (r: bool)
        requires
            move_fits(old(self).puzzle.cubes@, cube_id, delta_position),
            move_allowed(old(self).puzzle.cubes@, cube_id, delta_position)
                ==> old(self).puzzle.move_count < u32::MAX,
        ensures
            r == move_allowed(old(self).puzzle.cubes@, cube_id, delta_position),
            r ==> final(self).moves == final(self).puzzle.move_count,
            r ==> final(self).puzzle.move_count == old(self).puzzle.move_count + 1,
            !r ==> final(self).moves == old(self).moves,
            !r ==> final(self).puzzle.cubes@ == old(self).puzzle.cubes@,
            !r ==> final(self).puzzle.move_count == old(self).puzzle.move_count,
            !r ==> final(self).puzzle.state == old(self).puzzle.state,
            final(self).score == old(self).score,
            final(self).puzzle.goal_positions@ == old(self).puzzle.goal_positions@,
    {
        if self.puzzle.move_cube(cube_id, delta_position) {
            self.moves = self.puzzle.move_count;
            return true;
        }
        false
    }

    /// Back to no score, no moves and a fresh level.
    pub fn reset(&mut self)
        ensures
            final(self).is_fresh(),
    {
        self.score = 0;
        self.moves = 0;
        self.puzzle.reset();
    }
}

impl Default for GameState {
    fn default() -> (r: Self)
        ensures
            r.is_fresh(),
    {
        Self::new()
    }
}

/// What a host reads of the session: counters and whether it is won.
#[derive(Clone, Copy, Debug, PartialEq, Eq, Structural)]
pub struct GameStatus {
    pub score: u32,
    pub moves: u32,
    pub is_won: bool,
    pub puzzle_move_count: u32,
}

/// The status a host reads while no game is running.
pub open spec fn idle_status() -> GameStatus {
    GameStatus { score: 0, moves: 0, is_won: false, puzzle_move_count: 0 }
}

/// A host's session: at most one game, driven through calls that answer 0
/// on success and -1 on refusal.
pub struct GameSession {
    pub game: Option<GameState>,
}

/// The move that `game_move_cube` makes: the cube exists, the target cell is
/// on the grid and free.
pub open spec fn session_move_ok(g: GameState, cube_id: u32, d: (i32, i32, i32)) -> bool {
    move_allowed(g.puzzle.cubes@, cube_id, d)
}

impl GameSession {
    pub fn new() -> (r: Self)
        ensures
            r.game.is_none(),
    {
        GameSession { game: None }
    }

    /// Starts a game unless one is running: 0 and a fresh game, or -1 and
    /// nothing changed. The size is the host's window; it does not enter
    /// the game.
    pub fn game_initialize(&mut self, _width: u32, _height: u32) -> (r: i32)
        ensures
            old(self).game.is_some() ==> r == -1 && final(self).game == old(self).game,
            old(self).game.is_none() ==> r == 0 && (final(self).game matches Some(g) && g.is_fresh()),
    {
        if self.game.is_some() {
            return -1;
        }
        self.game = Some(GameState::new());
        0
    }

    /// Ends any running game; always 0.
    pub fn game_cleanup(&mut self) -> (r: i32)
        ensures
            r == 0,
            final(self).game.is_none(),
    {
        self.game = None;
        0
    }

    /// The counters of the running game, or all zero while none runs.
    pub fn game_get_state(&self) -> (r: GameStatus)
        ensures
            self.game.is_none() ==> r == idle_status(),
            self.game matches Some(g) ==> r == (GameStatus {
                score: g.score,
                moves: g.moves,
                is_won: g.puzzle.state == crate::puzzle::PuzzleState::Won,
                puzzle_move_count: g.puzzle.move_count,
            }),
    {
        match &self.game {
            Some(g) => GameStatus {
                score: g.score,
                moves: g.moves,
                is_won: g.puzzle.is_won(),
                puzzle_move_count: g.puzzle.move_count,
            },
            None => GameStatus { score: 0, moves: 0, is_won: false, puzzle_move_count: 0 },
        }
    }

    /// Moves a cube of the running game: 0 when it moved (and the session's
    /// move counter grows by one), -1 when no game runs or the move is
    /// refused.
    pub fn game_move_cube(&mut self, cube_id: u32, x: i32, y: i32, z: i32) -> (r: i32)
        requires
            old(self).game matches Some(g) ==> move_fits(g.puzzle.cubes@, cube_id, (x, y, z)),
            old(self).game matches Some(g) ==> (session_move_ok(g, cube_id, (x, y, z))
                ==> g.puzzle.move_count < u32::MAX && g.moves < u32::MAX),
        ensures
            old(self).game.is_none() ==> r == -1 && final(self).game.is_none(),
            old(self).game matches Some(g) ==> {
                &&& (r == 0) == session_move_ok(g, cube_id, (x, y, z))
                &&& (r == 0 || r == -1)
                &&& final(self).game matches Some(h) && {
                    &&& h.score == g.score
                    &&& r == 0 ==> h.moves == g.moves + 1 && h.puzzle.move_count
                        == g.puzzle.move_count + 1
                    &&& r == -1 ==> h.moves == g.moves && h.puzzle.cubes@ == g.puzzle.cubes@
                        && h.puzzle.move_count == g.puzzle.move_count
                }
            },
    {
        match self.game.take() {
            Some(mut g) => {
                let moved = g.puzzle.move_cube(cube_id, (x, y, z));
                let r: i32 = if moved {
                    g.moves = g.moves + 1;
                    0
                } else {
                    -1
                };
                self.game = Some(g);
                r
            },
            None => -1,
        }
    }

    /// Restarts the running game: 0, or -1 when none runs.
    pub fn game_reset(&mut self) -> (r: i32)
        ensures
            old(self).game.is_none() ==> r == -1 && final(self).game.is_none(),
            old(self).game.is_some() ==> r == 0 && (final(self).game matches Some(g) && g.is_fresh()),
    {
        match self.game.take() {
            Some(mut g) => {
                g.reset();
                self.game = Some(g);
                0
            },
            None => -1,
        }
    }

    /// Adds points to the running game's score: 0, or -1 when none runs.
    pub fn game_add_score(&mut self, points: u32) -> (r: i32)
        requires
            old(self).game matches Some(g) ==> g.score + points <= u32::MAX,
        ensures
            old(self).game.is_none() ==> r == -1 && final(self).game.is_none(),
            old(self).game matches Some(g) ==> r == 0 && (final(self).game matches Some(h) && h.score
                == g.score + points && h.moves == g.moves && h.puzzle.move_count
                == g.puzzle.move_count && h.puzzle.cubes@ == g.puzzle.cubes@),
    {
        match self.game.take() {
            Some(mut g) => {
                g.score = g.score + points;
                self.game = Some(g);
                0
            },
            None => -1,
        }
    }
}

} // verus!
