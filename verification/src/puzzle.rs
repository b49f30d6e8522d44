//! Cube-sliding puzzle: four coloured cubes on a bounded grid, each with a
//! goal cell; the puzzle is won once every cube rests on its goal.
use std::collections::HashMap;
use vstd::prelude::*;
use vstd::std_specs::hash::spec_hash_map_iter;
use vstd::std_specs::iter::IteratorSpec;

verus! {

broadcast use vstd::std_specs::hash::group_hash_axioms;

#[derive(Clone, Copy, Debug, PartialEq, Eq, Structural)]
pub enum CubeColor {
    Red,
    Green,
    Blue,
    Yellow,
    Purple,
}

#[derive(Clone, Copy, Debug)]
pub struct Cube {
    pub position: (i32, i32, i32),
    pub color: CubeColor,
    pub id: u32,
}

#[derive(Clone, Copy, Debug, PartialEq, Eq, Structural)]
pub enum PuzzleState {
    Playing,
    Won,
    Lost,
    Paused,
}

pub struct PuzzleLogic {
    pub state: PuzzleState,
    pub cubes: HashMap<u32, Cube>,
    pub goal_positions: HashMap<u32, (i32, i32, i32)>,
    pub next_id: u32,
    pub move_count: u32,
}

/// A grid cell a cube may occupy: x and y in -5..=5, z in 0..=5.
pub open spec fn in_grid(p: (int, int, int)) -> bool {
    -5 <= p.0 <= 5 && -5 <= p.1 <= 5 && 0 <= p.2 <= 5
}

/// Some cube other than `id` sits at `p`.
pub open spec fn occupied_by_other(cubes: Map<u32, Cube>, id: u32, p: (i32, i32, i32)) -> bool {
    exists|k: u32| #[trigger] cubes.contains_key(k) && k != id && cubes[k].position == p
}

/// Every cube sits on the goal registered under its id.
pub open spec fn all_on_goal(
    cubes: Map<u32, Cube>,
    goals: Map<u32, (i32, i32, i32)>,
) -> bool {
    forall|k: u32| #[trigger]
        cubes.contains_key(k) ==> goals.contains_key(k) && goals[k] == cubes[k].position
}

/// Where cube `id` would land after moving by `d`, in unbounded arithmetic.
pub open spec fn target(cubes: Map<u32, Cube>, id: u32, d: (i32, i32, i32)) -> (int, int, int) {
    let p = cubes[id].position;
    (p.0 + d.0, p.1 + d.1, p.2 + d.2)
}

/// The addition of a move does not leave `i32`.
pub open spec fn move_fits(cubes: Map<u32, Cube>, id: u32, d: (i32, i32, i32)) -> bool {
    let t = target(cubes, id, d);
    cubes.contains_key(id) ==> (i32::MIN <= t.0 <= i32::MAX && i32::MIN <= t.1 <= i32::MAX
        && i32::MIN <= t.2 <= i32::MAX)
}

/// The move of cube `id` by `d` is accepted: the cube exists, the target is
/// on the grid and no other cube occupies it.
pub open spec fn move_allowed(cubes: Map<u32, Cube>, id: u32, d: (i32, i32, i32)) -> bool {
    let t = target(cubes, id, d);
    &&& cubes.contains_key(id)
    &&& in_grid(t)
    &&& !occupied_by_other(cubes, id, (t.0 as i32, t.1 as i32, t.2 as i32))
}

pub open spec fn cube_at(p: (i32, i32, i32), c: CubeColor, id: u32) -> Cube {
    Cube { position: p, color: c, id }
}

/// The cubes of a fresh level: a 2x2 square on the floor, ids 1 to 4.
pub open spec fn initial_cubes() -> Map<u32, Cube> {
    map![
        1u32 => cube_at((0, 0, 0), CubeColor::Red, 1),
        2u32 => cube_at((1, 0, 0), CubeColor::Green, 2),
        3u32 => cube_at((0, 1, 0), CubeColor::Blue, 3),
        4u32 => cube_at((1, 1, 0), CubeColor::Yellow, 4),
    ]
}

/// The goals of a fresh level: the same square two cells up.
pub open spec fn initial_goals() -> Map<u32, (i32, i32, i32)> {
    map![1u32 => (0i32, 0i32, 2i32), 2u32 => (1, 0, 2), 3u32 => (0, 1, 2), 4u32 => (1, 1, 2)]
}

/// The state after a pause request.
pub open spec fn paused(s: PuzzleState) -> PuzzleState {
    if s == PuzzleState::Playing { PuzzleState::Paused } else { s }
}

/// The state after a resume request.
pub open spec fn resumed(s: PuzzleState) -> PuzzleState {
    if s == PuzzleState::Paused { PuzzleState::Playing } else { s }
}

impl PuzzleLogic {
    /// The state of a freshly started level.
    pub open spec fn is_fresh_level(&self) -> bool {
        &&& self.state == PuzzleState::Playing
        &&& self.cubes@ == initial_cubes()
        &&& self.goal_positions@ == initial_goals()
        &&& self.next_id == 5
        &&& self.move_count == 0
    }

    pub fn new() -> (r: Self)
        ensures
            r.is_fresh_level(),
    {
        let mut puzzle = PuzzleLogic {
            state: PuzzleState::Playing,
            cubes: HashMap::new(),
            goal_positions: HashMap::new(),
            next_id: 1,
            move_count: 0,
        };
        puzzle.initialize_level();
        puzzle
    }

    fn place(&mut self, pos: (i32, i32, i32), color: CubeColor, goal: (i32, i32, i32))
        requires
            old(self).next_id < u32::MAX,
        ensures
            final(self).cubes@ == old(self).cubes@.insert(
                old(self).next_id,
                cube_at(pos, color, old(self).next_id),
            ),
            final(self).goal_positions@ == old(self).goal_positions@.insert(old(self).next_id, goal),
            final(self).next_id == old(self).next_id + 1,
            final(self).state == old(self).state,
            final(self).move_count == old(self).move_count,
    {
        let cube = Cube { position: pos, color, id: self.next_id };
        self.cubes.insert(self.next_id, cube);
        self.goal_positions.insert(self.next_id, goal);
        self.next_id = self.next_id + 1;
    }

    fn initialize_level(&mut self)
        requires
            old(self).cubes@ == Map::<u32, Cube>::empty(),
            old(self).goal_positions@ == Map::<u32, (i32, i32, i32)>::empty(),
            old(self).next_id == 1,
        ensures
            final(self).cubes@ == initial_cubes(),
            final(self).goal_positions@ == initial_goals(),
            final(self).next_id == 5,
            final(self).state == old(self).state,
            final(self).move_count == old(self).move_count,
    {
        self.place((0, 0, 0), CubeColor::Red, (0, 0, 2));
        self.place((1, 0, 0), CubeColor::Green, (1, 0, 2));
        self.place((0, 1, 0), CubeColor::Blue, (0, 1, 2));
        self.place((1, 1, 0), CubeColor::Yellow, (1, 1, 2));
        assert(self.cubes@ =~= initial_cubes());
        assert(self.goal_positions@ =~= initial_goals());
    }

    /// Whether a cube other than `id` sits at `p`.
    fn other_cube_at(&self, id: u32, p: (i32, i32, i32)) -> (r: bool)
        ensures
            r == occupied_by_other(self.cubes@, id, p),
    {
        let mut found = false;
        for kv in it: self.cubes.iter()
            invariant
                it.seq() == IteratorSpec::remaining(&spec_hash_map_iter(&self.cubes)),
                found == exists|j: int|
                    0 <= j < it.index() && *it.seq()[j].0 != id && it.seq()[j].1.position == p,
        {
            let (k, c) = kv;
            if *k != id && c.position.0 == p.0 && c.position.1 == p.1 && c.position.2 == p.2 {
                found = true;
            }
        }
        proof {
            let s = IteratorSpec::remaining(&spec_hash_map_iter(&self.cubes));
            if found {
                let j = choose|j: int|
                    0 <= j < s.len() && *s[j].0 != id && s[j].1.position == p;
                assert(self.cubes@.contains_key(*s[j].0));
            }
            if occupied_by_other(self.cubes@, id, p) {
                let k = choose|k: u32|
                    #[trigger] self.cubes@.contains_key(k) && k != id && self.cubes@[k].position
                        == p;
                assert(s.contains((&k, &self.cubes@[k])));
            }
        }
        found
    }

    /// Moves cube `cube_id` by `delta_position` when the target cell is on
    /// the grid and free; counts the move and checks for a win. Returns
    /// whether the cube moved.
    pub fn move_cube(&mut self, cube_id: u32, delta_position: (i32, i32, i32)) -> (r: bool)
        requires
            move_fits(old(self).cubes@, cube_id, delta_position),
            move_allowed(old(self).cubes@, cube_id, delta_position) ==> old(self).move_count
                < u32::MAX,
        ensures
            r == move_allowed(old(self).cubes@, cube_id, delta_position),
            r ==> {
                let c = old(self).cubes@[cube_id];
                let t = target(old(self).cubes@, cube_id, delta_position);
                let moved = old(self).cubes@.insert(
                    cube_id,
                    Cube { position: (t.0 as i32, t.1 as i32, t.2 as i32), ..c },
                );
                &&& final(self).cubes@ == moved
                &&& final(self).move_count == old(self).move_count + 1
                &&& final(self).state == (if all_on_goal(moved, old(self).goal_positions@) {
                    PuzzleState::Won
                } else {
                    old(self).state
                })
            },
            !r ==> final(self).cubes@ == old(self).cubes@ && final(self).move_count == old(
                self,
            ).move_count && final(self).state == old(self).state,
            final(self).goal_positions@ == old(self).goal_positions@,
            final(self).next_id == old(self).next_id,
    {
        let found = self.cubes.get(&cube_id);
        match found {
            Some(cube) => {
                let c = *cube;
                let new_x = c.position.0 + delta_position.0;
                let new_y = c.position.1 + delta_position.1;
                let new_z = c.position.2 + delta_position.2;
                let new_pos = (new_x, new_y, new_z);
                if new_x >= -5 && new_x <= 5 && new_y >= -5 && new_y <= 5 && new_z >= 0 && new_z
                    <= 5 {
                    let occupied = self.other_cube_at(cube_id, new_pos);
                    if !occupied {
                        self.cubes.insert(cube_id, Cube { position: new_pos, ..c });
                        self.move_count = self.move_count + 1;
                        self.check_win();
                        return true;
                    }
                }
                false
            },
            None => false,
        }
    }

    /// Marks the puzzle won when every cube rests on its goal; otherwise
    /// leaves the state as it is.
    pub fn check_win(&mut self)
        ensures
            final(self).state == (if all_on_goal(old(self).cubes@, old(self).goal_positions@) {
                PuzzleState::Won
            } else {
                old(self).state
            }),
            final(self).cubes@ == old(self).cubes@,
            final(self).goal_positions@ == old(self).goal_positions@,
            final(self).next_id == old(self).next_id,
            final(self).move_count == old(self).move_count,
    {
        let mut all_correct = true;
        for kv in it: self.cubes.iter()
            invariant
                it.seq() == IteratorSpec::remaining(&spec_hash_map_iter(&self.cubes)),
                all_correct == forall|j: int|
                    0 <= j < it.index() ==> #[trigger] self.goal_positions@.contains_key(
                        *it.seq()[j].0,
                    ) && self.goal_positions@[*it.seq()[j].0] == it.seq()[j].1.position,
        {
            let (k, c) = kv;
            let ok = match self.goal_positions.get(k) {
                Some(g) => c.position.0 == g.0 && c.position.1 == g.1 && c.position.2 == g.2,
                None => false,
            };
            if !ok {
                all_correct = false;
            }
        }
        proof {
            let s = IteratorSpec::remaining(&spec_hash_map_iter(&self.cubes));
            if all_correct {
                assert forall|k: u32| #[trigger] self.cubes@.contains_key(k) implies
                    self.goal_positions@.contains_key(k) && self.goal_positions@[k]
                    == self.cubes@[k].position by {
                    assert(s.contains((&k, &self.cubes@[k])));
                    let j = choose|j: int| 0 <= j < s.len() && s[j] == (&k, &self.cubes@[k]);
                    assert(self.goal_positions@.contains_key(*s[j].0));
                }
            } else {
                let j = choose|j: int|
                    0 <= j < s.len() && !(self.goal_positions@.contains_key(*s[j].0)
                        && self.goal_positions@[*s[j].0] == s[j].1.position);
                assert(self.cubes@.contains_key(*s[j].0));
            }
        }
        if all_correct {
            self.state = PuzzleState::Won;
        }
    }

    /// The id of a cube at `pos`, if any cube is there.
    pub fn get_cube_at(&self, pos: (i32, i32, i32)) -> (r: Option<u32>)
        ensures
            r.is_none() <==> !exists|k: u32|
                #[trigger] self.cubes@.contains_key(k) && self.cubes@[k].position == pos,
            r matches Some(k) ==> self.cubes@.contains_key(k) && self.cubes@[k].position == pos,
    {
        let mut result: Option<u32> = None;
        for kv in it: self.cubes.iter()
            invariant
                it.seq() == IteratorSpec::remaining(&spec_hash_map_iter(&self.cubes)),
                forall|i: int| 0 <= i < it.seq().len() ==> #[trigger] self.cubes@.contains_key(
                    *it.seq()[i].0,
                ) && self.cubes@[*it.seq()[i].0] == *it.seq()[i].1,
                result.is_none() <==> !exists|j: int|
                    0 <= j < it.index() && #[trigger] it.seq()[j].1.position == pos,
                result matches Some(k) ==> self.cubes@.contains_key(k) && self.cubes@[k].position
                    == pos,
        {
            let (k, c) = kv;
            if result.is_none() && c.position.0 == pos.0 && c.position.1 == pos.1
                && c.position.2 == pos.2 {
                result = Some(*k);
            }
        }
        proof {
            let s = IteratorSpec::remaining(&spec_hash_map_iter(&self.cubes));
            if exists|k: u32| #[trigger] self.cubes@.contains_key(k) && self.cubes@[k].position
                == pos {
                let k = choose|k: u32|
                    #[trigger] self.cubes@.contains_key(k) && self.cubes@[k].position == pos;
                assert(s.contains((&k, &self.cubes@[k])));
                let j = choose|j: int| 0 <= j < s.len() && s[j] == (&k, &self.cubes@[k]);
                assert(s[j].1.position == pos);
            }
        }
        result
    }

    pub fn is_won(&self) -> (r: bool)
        ensures
            r == (self.state == PuzzleState::Won),
    {
        self.state == PuzzleState::Won
    }

    /// Starts the level over: fresh cubes and goals, no moves, playing.
    pub fn reset(&mut self)
        ensures
            final(self).is_fresh_level(),
    {
        self.state = PuzzleState::Playing;
        self.cubes.clear();
        self.goal_positions.clear();
        self.next_id = 1;
        self.move_count = 0;
        self.initialize_level();
    }

    /// A playing puzzle becomes paused; any other state stays.
    pub fn pause(&mut self)
        ensures
            final(self).state == paused(old(self).state),
            final(self).cubes@ == old(self).cubes@,
            final(self).goal_positions@ == old(self).goal_positions@,
            final(self).next_id == old(self).next_id,
            final(self).move_count == old(self).move_count,
    {
        if self.state == PuzzleState::Playing {
            self.state = PuzzleState::Paused;
        }
    }

    /// A paused puzzle plays again; any other state stays.
    pub fn resume(&mut self)
        ensures
            final(self).state == resumed(old(self).state),
            final(self).cubes@ == old(self).cubes@,
            final(self).goal_positions@ == old(self).goal_positions@,
            final(self).next_id == old(self).next_id,
            final(self).move_count == old(self).move_count,
    {
        if self.state == PuzzleState::Paused {
            self.state = PuzzleState::Playing;
        }
    }
}

impl Default for PuzzleLogic {
    fn default() -> (r: Self)
        ensures
            r.is_fresh_level(),
    {
        Self::new()
    }
}

/// Pausing and then resuming gives back the state one started from,
/// unless it was already paused.
pub proof fn lemma_pause_then_resume(s: PuzzleState)
    requires
        s != PuzzleState::Paused,
    ensures
        resumed(paused(s)) == s,
{
}

/// No two cubes share a cell.
pub open spec fn positions_distinct(cubes: Map<u32, Cube>) -> bool {
    forall|a: u32, b: u32|
        #![trigger cubes[a], cubes[b]]
        cubes.contains_key(a) && cubes.contains_key(b) && a != b ==> cubes[a].position
            != cubes[b].position
}

/// A fresh level has its cubes on distinct cells.
pub proof fn lemma_initial_distinct()
    ensures
        positions_distinct(initial_cubes()),
{
}

/// An accepted move keeps the cubes on distinct cells, so a cube found by
/// `get_cube_at` is the only one there.
pub proof fn lemma_move_keeps_distinct(cubes: Map<u32, Cube>, id: u32, d: (i32, i32, i32))
    requires
        positions_distinct(cubes),
        move_fits(cubes, id, d),
        move_allowed(cubes, id, d),
    ensures
        ({
            let t = target(cubes, id, d);
            positions_distinct(
                cubes.insert(id, Cube { position: (t.0 as i32, t.1 as i32, t.2 as i32), ..cubes[id] }),
            )
        }),
{
    let t = target(cubes, id, d);
    let p = (t.0 as i32, t.1 as i32, t.2 as i32);
    let m = cubes.insert(id, Cube { position: p, ..cubes[id] });
    assert forall|a: u32, b: u32|
        m.contains_key(a) && m.contains_key(b) && a != b implies #[trigger] m[a].position
        != #[trigger] m[b].position by {
        if a == id {
            assert(cubes.contains_key(b) && b != id);
        } else if b == id {
            assert(cubes.contains_key(a) && a != id);
        }
    }
}

} // verus!
