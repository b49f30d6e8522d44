use vstd::prelude::*;

pub mod animal_puzzle;
pub mod audio;
pub mod blaster;
pub mod chase;
pub mod cube_game;
pub mod dungeon;
pub mod earthdef;
pub mod engine_mode;
pub mod font;
pub mod input;
pub mod lights;
pub mod math;
pub mod maze;
pub mod maze_game;
pub mod msx;
pub mod pacman;
pub mod pacman_ai;
pub mod penpen;
pub mod puzzle;
pub mod rogue_game;
pub mod rogue_rules;
pub mod rogue_turn;
pub mod roguelike;
pub mod scene;
pub mod scene_objects;
pub mod storage;
pub mod vrm;

verus! {
}
