//! Rules of the 3D maze game: turning and stepping through the maze,
//! reaching the goal in the far corner, the chaser's turn, and moving on to
//! a new maze. The page keeps the time, draws, plays the sounds and keeps
//! the scores; it hands the rules a seed for each new maze.
use vstd::prelude::*;
use crate::audio::{AudioEvent, AudioState};
use crate::chase::{Enemy, chased};
use crate::maze::{Maze, carved_maze, move_target, well_formed, is_dir, N, S, E, W_DIR, MAZE_W, MAZE_H};
use crate::scene::{Scene, SceneManager};

verus! {

/// The side on the left of `f`.
pub open spec fn turn_left(f: u8) -> u8 {
    if f == N {
        W_DIR
    } else if f == W_DIR {
        S
    } else if f == S {
        E
    } else {
        N
    }
}

/// The side on the right of `f`.
pub open spec fn turn_right(f: u8) -> u8 {
    if f == N {
        E
    } else if f == E {
        S
    } else if f == S {
        W_DIR
    } else {
        N
    }
}

/// The side behind `f`.
pub open spec fn behind(f: u8) -> u8 {
    if f == N {
        S
    } else if f == S {
        N
    } else if f == E {
        W_DIR
    } else {
        E
    }
}

/// Steps from cell (x, z) to the goal corner (8, 8) ignoring walls.
pub open spec fn goal_distance(x: int, z: int) -> int {
    (8 - x) + (8 - z)
}

/// What a player action did, for the page to show.
#[derive(Clone, Copy, PartialEq, Eq, Structural, Debug)]
pub enum MoveOutcome {
    /// The action was not taken (not playing, or an unknown action).
    Ignored,
    /// The player turned on the spot.
    Turned,
    /// The player stepped to a neighbouring cell.
    Stepped,
    /// The player stepped onto the goal.
    ReachedGoal,
    /// A wall on this side stopped the player.
    HitWall(u8),
}

/// The rules' part of a game of the maze: the maze, the player's cell and
/// facing, the counters, the chaser, the scene and the pending sound.
pub struct GameState {
    pub scene: SceneManager,
    pub maze: Maze,
    pub px: usize,
    pub pz: usize,
    pub facing: u8,
    pub steps: u32,
    pub total_steps: u32,
    pub level: u32,
    pub level_clear: bool,
    pub audio: AudioState,
    pub enemy: Enemy,
    pub game_over: bool,
}

/// `g1` is `g0` after an attempt to step through side `d`, answered with `r`:
/// through a wall the player stays and hears it; otherwise the player moves,
/// counts the step, hears a warning one step before the goal, and on the
/// goal clears the level and adds the level's steps to the total.
pub open spec fn stepped(g0: GameState, g1: GameState, d: u8, r: MoveOutcome) -> bool {
    &&& g1.maze == g0.maze
    &&& g1.facing == g0.facing
    &&& g1.level == g0.level
    &&& g1.enemy == g0.enemy
    &&& g1.game_over == g0.game_over
    &&& match move_target(g0.maze.cells@, g0.px, g0.pz, d) {
        None => {
            &&& g1.px == g0.px && g1.pz == g0.pz
            &&& g1.steps == g0.steps && g1.total_steps == g0.total_steps
            &&& g1.level_clear == g0.level_clear
            &&& g1.scene == g0.scene
            &&& g1.audio == g0.audio.triggered(AudioEvent::WallHit)
            &&& r == MoveOutcome::HitWall(d)
        },
        Some((nx, nz)) => {
            let at_goal = nx == 8 && nz == 8;
            let near = goal_distance(nx as int, nz as int) == 1 && !g0.level_clear;
            let a1 = g0.audio.triggered(AudioEvent::Step);
            let a2 = if near {
                a1.triggered(AudioEvent::GoalNear)
            } else {
                a1
            };
            &&& g1.px == nx && g1.pz == nz
            &&& g1.steps == g0.steps + 1
            &&& g1.audio == (if at_goal {
                a2.triggered(AudioEvent::LevelClear)
            } else {
                a2
            })
            &&& g1.level_clear == (g0.level_clear || at_goal)
            &&& g1.total_steps == (if at_goal {
                g0.total_steps + g0.steps + 1
            } else {
                g0.total_steps as int
            })
            &&& g1.scene.current == (if at_goal {
                Scene::LevelClear
            } else {
                g0.scene.current
            })
            &&& r == (if at_goal {
                MoveOutcome::ReachedGoal
            } else {
                MoveOutcome::Stepped
            })
        },
    }
}

impl GameState {
    /// The player and the chaser stand in a maze the generator could build,
    /// and the player faces one of the four sides.
    pub open spec fn wf(&self) -> bool {
        &&& well_formed(self.maze.cells@)
        &&& self.px < 9 && self.pz < 9
        &&& is_dir(self.facing)
        &&& self.enemy.wf()
    }

    /// A fresh level of the maze at `level`: the player in the corner (0, 0)
    /// facing south, no steps yet, the chaser at the far side of the top
    /// row, hunting.
    pub open spec fn fresh_level(&self, level: u32) -> bool {
        &&& self.px == 0 && self.pz == 0
        &&& self.facing == S
        &&& self.steps == 0
        &&& self.level == level
        &&& !self.level_clear
        &&& self.enemy.ex == 8 && self.enemy.ez == 0 && self.enemy.active && !self.enemy.caught
        &&& !self.game_over
    }

    /// A game on the title screen with the maze built from `seed`.
    pub fn new(seed: u64) -> (g: Self)
        ensures
            g.wf(),
            g.fresh_level(1),
            g.total_steps == 0,
            g.scene.current == Scene::Title,
            g.audio.event == AudioEvent::NoEvent,
            !g.audio.step_parity,
            g.maze.cells@ == carved_maze(seed),
    {
        GameState {
            scene: SceneManager::new(),
            maze: Maze::new(seed),
            px: 0,
            pz: 0,
            facing: S,
            steps: 0,
            total_steps: 0,
            level: 1,
            level_clear: false,
            audio: AudioState::new(),
            enemy: Enemy::new(),
            game_over: false,
        }
    }

    /// Player action: 0 steps forward, 1 turns left, 2 turns right, 3 steps
    /// back without turning; nothing happens while the level is cleared,
    /// the game is over or the title is shown.
    pub fn act(&mut self, action: i32) -> (r: MoveOutcome)
        requires
            old(self).wf(),
            old(self).steps < u32::MAX,
            old(self).total_steps + old(self).steps < u32::MAX,
        ensures
            final(self).wf(),
            old(self).level_clear || old(self).game_over || old(self).scene.current == Scene::Title ==> *final(self)
                == *old(self) && r == MoveOutcome::Ignored,
            !(old(self).level_clear || old(self).game_over || old(self).scene.current == Scene::Title) ==> {
                if action == 1 || action == 2 {
                    &&& *final(self) == (GameState {
                        facing: if action == 1 {
                            turn_left(old(self).facing)
                        } else {
                            turn_right(old(self).facing)
                        },
                        ..*old(self)
                    })
                    &&& r == MoveOutcome::Turned
                } else if action == 0 {
                    stepped(*old(self), *final(self), old(self).facing, r)
                } else if action == 3 {
                    stepped(*old(self), *final(self), behind(old(self).facing), r)
                } else {
                    *final(self) == *old(self) && r == MoveOutcome::Ignored
                }
            },
    {
        if self.level_clear || self.game_over || self.scene.is_title() {
            return MoveOutcome::Ignored;
        }
        if action == 1 {
            let f = self.facing;
            self.facing = if f == N {
                W_DIR
            } else if f == W_DIR {
                S
            } else if f == S {
                E
            } else {
                N
            };
            MoveOutcome::Turned
        } else if action == 2 {
            let f = self.facing;
            self.facing = if f == N {
                E
            } else if f == E {
                S
            } else if f == S {
                W_DIR
            } else {
                N
            };
            MoveOutcome::Turned
        } else if action == 0 {
            let f = self.facing;
            self.try_move(f)
        } else if action == 3 {
            let f = self.facing;
            let b = if f == N {
                S
            } else if f == S {
                N
            } else if f == E {
                W_DIR
            } else {
                E
            };
            self.try_move(b)
        } else {
            MoveOutcome::Ignored
        }
    }

    fn try_move(&mut self, dir: u8) -> (r: MoveOutcome)
        requires
            old(self).wf(),
            is_dir(dir),
            old(self).steps < u32::MAX,
            old(self).total_steps + old(self).steps < u32::MAX,
        ensures
            final(self).wf(),
            stepped(*old(self), *final(self), dir, r),
    {
        match self.maze.can_move(self.px, self.pz, dir) {
            Some((nx, nz)) => {
                self.px = nx;
                self.pz = nz;
                self.steps = self.steps + 1;
                self.audio.trigger(AudioEvent::Step);
                let dx: usize = (MAZE_W - 1) - nx;
                let dz: usize = (MAZE_H - 1) - nz;
                if dx + dz == 1 && !self.level_clear {
                    self.audio.trigger(AudioEvent::GoalNear);
                }
                if nx == MAZE_W - 1 && nz == MAZE_H - 1 {
                    self.total_steps = self.total_steps + self.steps;
                    self.level_clear = true;
                    self.scene.transition_to(Scene::LevelClear);
                    self.audio.trigger(AudioEvent::LevelClear);
                    MoveOutcome::ReachedGoal
                } else {
                    MoveOutcome::Stepped
                }
            },
            None => {
                self.audio.trigger(AudioEvent::WallHit);
                MoveOutcome::HitWall(dir)
            },
        }
    }

    /// The chaser's part of a frame while playing: when its timer has run
    /// out it moves, then a chaser on the player's cell ends the game and
    /// one a single step away sounds a warning. Nothing happens once the
    /// game is over or on the title screen.
    pub fn update_enemy(&mut self, timer_expired: bool)
        requires
            old(self).wf(),
        ensures
            final(self).wf(),
            old(self).game_over || old(self).scene.current == Scene::Title ==> *final(self) == *old(self),
            !(old(self).game_over || old(self).scene.current == Scene::Title) ==> {
                let e = final(self).enemy;
                &&& (if timer_expired {
                    chased(old(self).maze.cells@, old(self).enemy, e, old(self).px, old(self).pz)
                } else {
                    e == old(self).enemy
                })
                &&& final(self).maze == old(self).maze
                &&& final(self).px == old(self).px && final(self).pz == old(self).pz
                &&& final(self).facing == old(self).facing
                &&& final(self).steps == old(self).steps && final(self).total_steps == old(self).total_steps
                &&& final(self).level == old(self).level && final(self).level_clear == old(self).level_clear
                &&& final(self).game_over == e.caught
                &&& final(self).scene.current == (if e.caught {
                    Scene::GameOver
                } else {
                    old(self).scene.current
                })
                &&& final(self).audio == (if e.caught {
                    old(self).audio.triggered(AudioEvent::GameOver)
                } else if (if e.ex >= old(self).px {
                    e.ex - old(self).px
                } else {
                    old(self).px - e.ex
                }) + (if e.ez >= old(self).pz {
                    e.ez - old(self).pz
                } else {
                    old(self).pz - e.ez
                }) == 1 {
                    old(self).audio.triggered(AudioEvent::EnemyNear)
                } else {
                    old(self).audio
                })
            },
    {
        if self.game_over || self.scene.is_title() {
            return;
        }
        if timer_expired {
            self.enemy.chase_step(&self.maze, self.px, self.pz);
        }
        if self.enemy.caught {
            self.game_over = true;
            self.scene.transition_to(Scene::GameOver);
            self.audio.trigger(AudioEvent::GameOver);
        } else if self.enemy.distance_to(self.px, self.pz) == 1 {
            self.audio.trigger(AudioEvent::EnemyNear);
        }
    }

    /// The next level in the maze built from `seed`; the total of steps is
    /// kept.
    pub fn next_level(&mut self, seed: u64)
        requires
            old(self).wf(),
            old(self).level < u32::MAX,
        ensures
            final(self).wf(),
            final(self).fresh_level((old(self).level + 1) as u32),
            final(self).total_steps == old(self).total_steps,
            final(self).scene.current == Scene::Playing,
            final(self).audio == old(self).audio,
            final(self).maze.cells@ == carved_maze(seed),
    {
        self.maze = Maze::new(seed);
        self.px = 0;
        self.pz = 0;
        self.facing = S;
        self.steps = 0;
        self.level = self.level + 1;
        self.level_clear = false;
        self.enemy = Enemy::new();
        self.game_over = false;
        self.scene.transition_to(Scene::Playing);
    }

    /// A new game from level 1 in the maze built from `seed`.
    pub fn reset(&mut self, seed: u64)
        requires
            old(self).wf(),
        ensures
            final(self).wf(),
            final(self).fresh_level(1),
            final(self).total_steps == 0,
            final(self).scene.current == Scene::Playing,
            final(self).audio == old(self).audio,
            final(self).maze.cells@ == carved_maze(seed),
    {
        self.reset_to_level1(seed);
        self.scene.transition_to(Scene::Playing);
    }

    /// Leaves the title screen for a new game from level 1 in the maze built
    /// from `seed`.
    pub fn start_game(&mut self, seed: u64)
        requires
            old(self).wf(),
        ensures
            final(self).wf(),
            final(self).fresh_level(1),
            final(self).total_steps == 0,
            final(self).scene.current == Scene::Playing,
            final(self).audio == old(self).audio,
            final(self).maze.cells@ == carved_maze(seed),
    {
        self.game_over = false;
        self.scene.transition_to(Scene::Playing);
        self.reset_to_level1(seed);
    }

    fn reset_to_level1(&mut self, seed: u64)
        requires
            old(self).wf(),
        ensures
            final(self).wf(),
            final(self).fresh_level(1),
            final(self).total_steps == 0,
            final(self).scene == old(self).scene,
            final(self).audio == old(self).audio,
            final(self).maze.cells@ == carved_maze(seed),
    {
        self.maze = Maze::new(seed);
        self.px = 0;
        self.pz = 0;
        self.facing = S;
        self.steps = 0;
        self.total_steps = 0;
        self.level = 1;
        self.level_clear = false;
        self.enemy = Enemy::new();
        self.game_over = false;
    }
}

/// Turning right undoes turning left and the other way round; four turns
/// the same way, or two turns and a look behind, face the player as before.
pub proof fn lemma_turns(f: u8)
    requires
        is_dir(f),
    ensures
        turn_right(turn_left(f)) == f,
        turn_left(turn_right(f)) == f,
        turn_left(turn_left(turn_left(turn_left(f)))) == f,
        turn_left(turn_left(f)) == behind(f),
        turn_right(turn_right(f)) == behind(f),
        behind(behind(f)) == f,
        is_dir(turn_left(f)) && is_dir(turn_right(f)) && is_dir(behind(f)),
{
}

} // verus!
