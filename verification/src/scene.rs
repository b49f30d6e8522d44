//! Scene switching of the maze game: title, playing, level clear, game over.
use vstd::prelude::*;

verus! {

#[derive(Clone, Copy, PartialEq, Eq, Structural)]
pub enum Scene {
    Title,
    Playing,
    LevelClear,
    GameOver,
}

pub open spec fn scene_number(s: Scene) -> u8 {
    match s {
        Scene::Title => 0,
        Scene::Playing => 1,
        Scene::LevelClear => 2,
        Scene::GameOver => 3,
    }
}

pub struct SceneManager {
    pub current: Scene,
}

impl SceneManager {
    /// Starts at the title screen.
    pub fn new() -> (m: Self)
        ensures
            m.current == Scene::Title,
    {
        SceneManager { current: Scene::Title }
    }

    pub fn transition_to(&mut self, scene: Scene)
        ensures
            final(self).current == scene,
    {
        self.current = scene;
    }

    pub fn is_title(&self) -> (r: bool)
        ensures
            r == (self.current == Scene::Title),
    {
        self.current == Scene::Title
    }

    pub fn is_playing(&self) -> (r: bool)
        ensures
            r == (self.current == Scene::Playing),
    {
        self.current == Scene::Playing
    }

    pub fn is_level_clear(&self) -> (r: bool)
        ensures
            r == (self.current == Scene::LevelClear),
    {
        self.current == Scene::LevelClear
    }

    pub fn is_game_over(&self) -> (r: bool)
        ensures
            r == (self.current == Scene::GameOver),
    {
        self.current == Scene::GameOver
    }

    /// The scene's number: 0 title, 1 playing, 2 level clear, 3 game over.
    pub fn as_u8(&self) -> (r: u8)
        ensures
            r == scene_number(self.current),
    {
        match self.current {
            Scene::Title => 0,
            Scene::Playing => 1,
            Scene::LevelClear => 2,
            Scene::GameOver => 3,
        }
    }
}

/// Scene numbers tell the scenes apart.
pub proof fn lemma_scene_numbers_distinct(a: Scene, b: Scene)
    requires
        scene_number(a) == scene_number(b),
    ensures
        a == b,
{
}

} // verus!
