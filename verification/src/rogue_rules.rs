//! Rules of play in the roguelike dungeon: where one may walk, what the
//! weapons reach, how blows and arrows are resolved, how the hero grows and
//! what a defeated enemy leaves behind.
use vstd::prelude::*;
use crate::dungeon::{generate_dungeon, grid, in_grid, in_room, in_some_room, rooms_ok, room_ok, tile, dungeon_tile};
use crate::roguelike::{
    TileType, Room, AttackEffect, DamageNumber, Equipment, EquipmentInventory, calc_map_size, EnemyVariant, ItemType, WeaponType, ArmorType, AccessoryType, LcgRng, lcg32_next,
    lcg32_out,
};

verus! {

/// One floor of the dungeon: its tiles, its rooms and its size.
pub struct FloorPlan {
    pub map: Vec<Vec<TileType>>,
    pub rooms: Vec<Room>,
    pub map_width: i32,
    pub map_height: i32,
}

/// The step of a direction: 0 up, 1 left, 2 right, 3 down.
pub open spec fn dir_delta(dir: i32) -> (int, int) {
    if dir == 0 {
        (0, -1)
    } else if dir == 1 {
        (-1, 0)
    } else if dir == 2 {
        (1, 0)
    } else if dir == 3 {
        (0, 1)
    } else {
        (0, 0)
    }
}

/// The cell `k` steps from (x, y) in direction `dir`.
pub open spec fn ray(x: int, y: int, dir: i32, k: int) -> (int, int) {
    (x + k * dir_delta(dir).0, y + k * dir_delta(dir).1)
}

proof fn lemma_ray_step(x: int, y: int, dir: i32, k: int)
    ensures
        ray(x, y, dir, k + 1) == (ray(x, y, dir, k).0 + dir_delta(dir).0, ray(x, y, dir, k).1 + dir_delta(dir).1),
        ray(x, y, dir, 0) == (x, y),
{
    let (dx, dy) = dir_delta(dir);
    assert((k + 1) * dx == k * dx + dx) by (nonlinear_arith);
    assert((k + 1) * dy == k * dy + dy) by (nonlinear_arith);
    assert(0 * dx == 0 && 0 * dy == 0) by (nonlinear_arith);
}

pub open spec fn walkable_tile(t: TileType) -> bool {
    t == TileType::Floor || t == TileType::Room || t == TileType::StairDown || t == TileType::StairUp
}

impl FloorPlan {
    pub open spec fn wf(&self) -> bool {
        &&& grid(self.map@, self.map_width as int, self.map_height as int)
        &&& 0 < self.map_width <= 100000
        &&& 0 < self.map_height <= 100000
    }

    /// Inside the floor and walkable: floor, room or stairs.
    pub open spec fn walkable(&self, x: int, y: int) -> bool {
        in_grid(x, y, self.map_width as int, self.map_height as int) && walkable_tile(tile(self.map@, x, y))
    }

    /// Inside the floor and a hole.
    pub open spec fn pit(&self, x: int, y: int) -> bool {
        in_grid(x, y, self.map_width as int, self.map_height as int) && tile(self.map@, x, y) == TileType::Pit
    }

    /// Inside the floor and not a wall: what an arrow flies through.
    pub open spec fn open(&self, x: int, y: int) -> bool {
        in_grid(x, y, self.map_width as int, self.map_height as int) && tile(self.map@, x, y) != TileType::Wall
    }

    /// Moving `k` steps from (x, y) in direction `dir` crosses only open
    /// cells, and the next step would not be open.
    pub open spec fn flies_to(&self, x: int, y: int, dir: i32, k: int) -> bool {
        &&& k >= 0
        &&& forall|j: int| 1 <= j <= k ==> #[trigger] self.open(ray(x, y, dir, j).0, ray(x, y, dir, j).1)
        &&& !self.open(ray(x, y, dir, k + 1).0, ray(x, y, dir, k + 1).1)
    }

    /// Moving `k` steps from (x, y) in direction `dir` crosses only walkable
    /// cells, and the next step would not be walkable.
    pub open spec fn walks_to(&self, x: int, y: int, dir: i32, k: int) -> bool {
        &&& k >= 0
        &&& forall|j: int| 1 <= j <= k ==> #[trigger] self.walkable(ray(x, y, dir, j).0, ray(x, y, dir, j).1)
        &&& !self.walkable(ray(x, y, dir, k + 1).0, ray(x, y, dir, k + 1).1)
    }

    /// The floor at `depth`: its size from `calc_map_size`, laid out by
    /// `generate_dungeon` with the depth as seed.
    pub fn generate(depth: u32) -> (f: Self)
        requires
            1 <= depth <= 1000,
        ensures
            f.wf(),
            f.map_width == 120 + (depth - 1) * 4,
            f.map_height == 80 + (depth - 1) * 2,
            rooms_ok(f.rooms@, f.map_width as int, f.map_height as int),
            1 <= f.rooms@.len() <= 12,
            f.rooms@ == crate::dungeon::dungeon_rooms(f.map_width, f.map_height, depth),
            forall|x: int, y: int|
                in_grid(x, y, f.map_width as int, f.map_height as int) ==> #[trigger] tile(f.map@, x, y)
                    == dungeon_tile(f.rooms@, x, y),
    {
        let (w, h) = calc_map_size(depth);
        let (map, rooms) = generate_dungeon(w, h, depth);
        FloorPlan { map, rooms, map_width: w, map_height: h }
    }

    pub fn is_walkable(&self, x: i32, y: i32) -> (r: bool)
        requires
            self.wf(),
        ensures
            r == self.walkable(x as int, y as int),
    {
        if x < 0 || x >= self.map_width || y < 0 || y >= self.map_height {
            return false;
        }
        let t = self.map[y as usize][x as usize];
        t == TileType::Floor || t == TileType::Room || t == TileType::StairDown || t == TileType::StairUp
    }

    pub fn is_pit(&self, x: i32, y: i32) -> (r: bool)
        requires
            self.wf(),
        ensures
            r == self.pit(x as int, y as int),
    {
        x >= 0 && x < self.map_width && y >= 0 && y < self.map_height && self.map[y as usize][x as usize]
            == TileType::Pit
    }

    /// The first room (in order) containing (x, y), if any.
    pub fn get_room_at(&self, x: i32, y: i32) -> (r: Option<usize>)
        ensures
            r matches Some(i) ==> i < self.rooms@.len() && in_room(self.rooms@[i as int], x as int, y as int)
                && forall|j: int| 0 <= j < i ==> !in_room(#[trigger] self.rooms@[j], x as int, y as int),
            r is None ==> !in_some_room(self.rooms@, x as int, y as int),
    {
        let mut i: usize = 0;
        while i < self.rooms.len()
            invariant
                i <= self.rooms@.len(),
                forall|j: int| 0 <= j < i ==> !in_room(#[trigger] self.rooms@[j], x as int, y as int),
            decreases self.rooms@.len() - i,
        {
            let room = self.rooms[i];
            if (x as i64) >= (room.x as i64) && (x as i64) < (room.x as i64) + (room.width as i64) && (y as i64)
                >= (room.y as i64) && (y as i64) < (room.y as i64) + (room.height as i64) {
                return Some(i);
            }
            i = i + 1;
        }
        None
    }

    /// Where an arrow shot from (px, py) in direction `dir` comes down: the
    /// last cell before the first wall or the edge of the floor.
    pub fn bow_target(&self, px: i32, py: i32, dir: i32) -> (r: (i32, i32))
        requires
            self.wf(),
            0 <= dir <= 3,
            -100000 <= px <= 100000,
            -100000 <= py <= 100000,
        ensures
            exists|k: int|
                #[trigger] self.flies_to(px as int, py as int, dir, k) && (r.0 as int, r.1 as int) == ray(
                    px as int,
                    py as int,
                    dir,
                    k,
                ),
    {
        let (dx, dy): (i32, i32) = if dir == 0 {
            (0, -1)
        } else if dir == 1 {
            (-1, 0)
        } else if dir == 2 {
            (1, 0)
        } else {
            (0, 1)
        };
        let mut x = px;
        let mut y = py;
        let ghost mut k: int = 0;
        proof {
            lemma_ray_step(px as int, py as int, dir, 0);
        }
        loop
            invariant
                self.wf(),
                0 <= dir <= 3,
                (dx as int, dy as int) == dir_delta(dir),
                -100000 <= px <= 100000,
                -100000 <= py <= 100000,
                k >= 0,
                -100000 <= x <= 100000,
                -100000 <= y <= 100000,
                (x as int, y as int) == ray(px as int, py as int, dir, k),
                k > 0 ==> in_grid(x as int, y as int, self.map_width as int, self.map_height as int),
                forall|j: int|
                    1 <= j <= k ==> #[trigger] self.open(ray(px as int, py as int, dir, j).0, ray(px as int, py as int, dir, j).1),
            ensures
                (x as int, y as int) == ray(px as int, py as int, dir, k),
                self.flies_to(px as int, py as int, dir, k),
            decreases (if dir == 0 {
                y + 1
            } else if dir == 1 {
                x + 1
            } else if dir == 2 {
                self.map_width - x
            } else {
                self.map_height - y
            }) + 200001,
        {
            let next_x = x + dx;
            let next_y = y + dy;
            proof {
                lemma_ray_step(px as int, py as int, dir, k);
            }
            if next_x < 0 || next_x >= self.map_width || next_y < 0 || next_y >= self.map_height {
                break;
            }
            if self.map[next_y as usize][next_x as usize] == TileType::Wall {
                break;
            }
            x = next_x;
            y = next_y;
            proof {
                k = k + 1;
            }
        }
        (x, y)
    }

    /// Where a spell moving from (fx, fy) in direction `dir` stops: the last
    /// walkable cell before the first one that is not.
    pub fn magic_target_from(&self, fx: i32, fy: i32, dir: i32) -> (r: (i32, i32))
        requires
            self.wf(),
            0 <= dir <= 3,
            -100000 <= fx <= 100000,
            -100000 <= fy <= 100000,
        ensures
            exists|k: int|
                #[trigger] self.walks_to(fx as int, fy as int, dir, k) && (r.0 as int, r.1 as int) == ray(
                    fx as int,
                    fy as int,
                    dir,
                    k,
                ),
    {
        let (dx, dy): (i32, i32) = if dir == 0 {
            (0, -1)
        } else if dir == 1 {
            (-1, 0)
        } else if dir == 2 {
            (1, 0)
        } else {
            (0, 1)
        };
        let mut x = fx;
        let mut y = fy;
        let ghost mut k: int = 0;
        proof {
            lemma_ray_step(fx as int, fy as int, dir, 0);
        }
        loop
            invariant
                self.wf(),
                0 <= dir <= 3,
                (dx as int, dy as int) == dir_delta(dir),
                -100000 <= fx <= 100000,
                -100000 <= fy <= 100000,
                k >= 0,
                -100000 <= x <= 100000,
                -100000 <= y <= 100000,
                (x as int, y as int) == ray(fx as int, fy as int, dir, k),
                k > 0 ==> in_grid(x as int, y as int, self.map_width as int, self.map_height as int),
                forall|j: int|
                    1 <= j <= k ==> #[trigger] self.walkable(ray(fx as int, fy as int, dir, j).0, ray(fx as int, fy as int, dir, j).1),
            ensures
                (x as int, y as int) == ray(fx as int, fy as int, dir, k),
                self.walks_to(fx as int, fy as int, dir, k),
            decreases (if dir == 0 {
                y + 1
            } else if dir == 1 {
                x + 1
            } else if dir == 2 {
                self.map_width - x
            } else {
                self.map_height - y
            }) + 200001,
        {
            let next_x = x + dx;
            let next_y = y + dy;
            proof {
                lemma_ray_step(fx as int, fy as int, dir, k);
            }
            if !self.is_walkable(next_x, next_y) {
                break;
            }
            x = next_x;
            y = next_y;
            proof {
                k = k + 1;
            }
        }
        (x, y)
    }
}

pub open spec fn strictly_between(v: int, a: int, b: int) -> bool {
    (a < v < b) || (b < v < a)
}

pub open spec fn abs(v: int) -> int {
    if v < 0 {
        -v
    } else {
        v
    }
}

impl FloorPlan {
    /// An enemy at (ex, ey) can shoot the hero at (px, py): both on one row
    /// or column at least two cells apart, with only walkable cells between.
    pub open spec fn clear_line(&self, ex: int, ey: int, px: int, py: int) -> bool {
        ||| (ex == px && abs(py - ey) >= 2 && forall|y: int|
            #![trigger self.walkable(ex, y)]
            strictly_between(y, ey, py) ==> self.walkable(ex, y))
        ||| (ey == py && abs(px - ex) >= 2 && forall|x: int|
            #![trigger self.walkable(x, ey)]
            strictly_between(x, ex, px) ==> self.walkable(x, ey))
    }

    /// Whether an enemy at (ex, ey) has a clear shot at the hero at (px, py).
    pub fn has_clear_shot(&self, px: i32, py: i32, ex: i32, ey: i32) -> (r: bool)
        requires
            self.wf(),
            -100000 <= px <= 100000,
            -100000 <= py <= 100000,
            -100000 <= ex <= 100000,
            -100000 <= ey <= 100000,
        ensures
            r == self.clear_line(ex as int, ey as int, px as int, py as int),
    {
        let dx = px - ex;
        let dy = py - ey;
        if dx == 0 && (dy <= 1 && dy >= -1) || dy == 0 && (dx <= 1 && dx >= -1) {
            return false;
        }
        if dx != 0 && dy != 0 {
            return false;
        }
        let step_x: i32 = if dx > 0 {
            1
        } else if dx < 0 {
            -1
        } else {
            0
        };
        let step_y: i32 = if dy > 0 {
            1
        } else if dy < 0 {
            -1
        } else {
            0
        };
        let mut x = ex + step_x;
        let mut y = ey + step_y;
        while x != px || y != py
            invariant
                self.wf(),
                -100000 <= px <= 100000,
                -100000 <= py <= 100000,
                -100000 <= ex <= 100000,
                -100000 <= ey <= 100000,
                dx == px - ex,
                dy == py - ey,
                dx == 0 || dy == 0,
                abs(dx as int) >= 2 || abs(dy as int) >= 2,
                step_x == (if dx > 0 { 1int } else if dx < 0 { -1int } else { 0int }),
                step_y == (if dy > 0 { 1int } else if dy < 0 { -1int } else { 0int }),
                dx == 0 ==> x == ex && (strictly_between(y as int, ey as int, py as int) || y == py),
                dy == 0 ==> y == ey && (strictly_between(x as int, ex as int, px as int) || x == px),
                dx == 0 ==> forall|v: int|
                    #![trigger self.walkable(ex as int, v)]
                    strictly_between(v, ey as int, y as int) ==> self.walkable(ex as int, v),
                dy == 0 ==> forall|v: int|
                    #![trigger self.walkable(v, ey as int)]
                    strictly_between(v, ex as int, x as int) ==> self.walkable(v, ey as int),
            decreases abs(px - x) + abs(py - y),
        {
            if !self.is_walkable(x, y) {
                return false;
            }
            x = x + step_x;
            y = y + step_y;
        }
        true
    }
}

/// The cells a sword swing from (px, py) facing `dir` hits: the one ahead,
/// the two beside that, and the two beside the hero.
pub open spec fn sword_cells(px: int, py: int, dir: i32) -> Seq<(int, int)> {
    if dir == 0 {
        seq![(px, py - 1), (px - 1, py - 1), (px + 1, py - 1), (px - 1, py), (px + 1, py)]
    } else if dir == 1 {
        seq![(px - 1, py), (px - 1, py - 1), (px - 1, py + 1), (px, py - 1), (px, py + 1)]
    } else if dir == 2 {
        seq![(px + 1, py), (px + 1, py - 1), (px + 1, py + 1), (px, py - 1), (px, py + 1)]
    } else if dir == 3 {
        seq![(px, py + 1), (px - 1, py + 1), (px + 1, py + 1), (px - 1, py), (px + 1, py)]
    } else {
        seq![]
    }
}

/// The cells a spear thrust from (px, py) facing `dir` hits: the two ahead.
pub open spec fn spear_cells(px: int, py: int, dir: i32) -> Seq<(int, int)> {
    if 0 <= dir <= 3 {
        seq![ray(px, py, dir, 1), ray(px, py, dir, 2)]
    } else {
        seq![]
    }
}

pub open spec fn cells_view(v: Seq<(i32, i32)>) -> Seq<(int, int)> {
    v.map_values(|c: (i32, i32)| (c.0 as int, c.1 as int))
}

pub fn sword_attack_cells(px: i32, py: i32, dir: i32) -> (r: Vec<(i32, i32)>)
    requires
        -100000 <= px <= 100000,
        -100000 <= py <= 100000,
    ensures
        cells_view(r@) == sword_cells(px as int, py as int, dir),
{
    let v = if dir == 0 {
        vec![(px, py - 1), (px - 1, py - 1), (px + 1, py - 1), (px - 1, py), (px + 1, py)]
    } else if dir == 1 {
        vec![(px - 1, py), (px - 1, py - 1), (px - 1, py + 1), (px, py - 1), (px, py + 1)]
    } else if dir == 2 {
        vec![(px + 1, py), (px + 1, py - 1), (px + 1, py + 1), (px, py - 1), (px, py + 1)]
    } else if dir == 3 {
        vec![(px, py + 1), (px - 1, py + 1), (px + 1, py + 1), (px - 1, py), (px + 1, py)]
    } else {
        Vec::new()
    };
    proof {
        assert(cells_view(v@) =~= sword_cells(px as int, py as int, dir));
    }
    v
}

pub fn spear_attack_cells(px: i32, py: i32, dir: i32) -> (r: Vec<(i32, i32)>)
    requires
        -100000 <= px <= 100000,
        -100000 <= py <= 100000,
    ensures
        cells_view(r@) == spear_cells(px as int, py as int, dir),
{
    let v = if dir == 0 {
        vec![(px, py - 1), (px, py - 2)]
    } else if dir == 1 {
        vec![(px - 1, py), (px - 2, py)]
    } else if dir == 2 {
        vec![(px + 1, py), (px + 2, py)]
    } else if dir == 3 {
        vec![(px, py + 1), (px, py + 2)]
    } else {
        Vec::new()
    };
    proof {
        assert(cells_view(v@) =~= spear_cells(px as int, py as int, dir));
    }
    v
}

/// Damage the hero takes from a blow or shot of strength `base`: eight
/// tenths of the armour's defence come off, at least one point stays; a
/// sword guard cuts it to a third, again at least one; in no-damage mode
/// nothing is taken. Returns the damage announced and the damage taken.
pub fn incoming_damage(base: i32, def_bonus: u32, guarding: bool, no_damage: bool) -> (r: (u32, u32))
    requires
        -1000000 <= base <= i32::MAX,
        def_bonus <= 1000000,
    ensures
        ({
            let reduced = if base - def_bonus * 80 / 100 >= 1 {
                base - def_bonus * 80 / 100
            } else {
                1
            };
            let damage = if guarding {
                if reduced / 3 >= 1 {
                    reduced / 3
                } else {
                    1
                }
            } else {
                reduced
            };
            &&& r.0 == damage
            &&& r.1 == (if no_damage {
                0
            } else {
                damage
            })
        }),
{
    let cut: i32 = (def_bonus as i32) * 80 / 100;
    let raw: i32 = base - cut;
    let reduced: u32 = if raw >= 1 {
        raw as u32
    } else {
        1
    };
    let damage: u32 = if guarding {
        if reduced / 3 >= 1 {
            reduced / 3
        } else {
            1
        }
    } else {
        reduced
    };
    let taken: u32 = if no_damage {
        0
    } else {
        damage
    };
    (damage, taken)
}

/// Hit points left after `damage`, never below zero.
pub fn hp_after(hp: u32, damage: u32) -> (r: u32)
    ensures
        r == (if hp >= damage {
            hp - damage
        } else {
            0
        }),
{
    if hp >= damage {
        hp - damage
    } else {
        0
    }
}

/// Damage an enemy with defence `def` takes from a strike of `damage`:
/// the defence comes off, at least one point stays.
pub fn strike_damage(damage: u32, def: u32) -> (r: u32)
    requires
        damage <= i32::MAX,
        def <= i32::MAX,
    ensures
        r == (if damage - def >= 1 {
            damage - def
        } else {
            1
        }),
{
    if damage > def && damage - def >= 1 {
        damage - def
    } else {
        1
    }
}

pub open spec fn variant_bonus(v: EnemyVariant) -> int {
    match v {
        EnemyVariant::Weak => 0,
        EnemyVariant::Normal => 4,
        EnemyVariant::Strong => 10,
        EnemyVariant::Boss => 22,
    }
}

/// Frames an enemy waits after a blow: 18, 28 or 38 by kind, more for
/// stronger variants, 60 for a boss, all scaled by `scale` hundredths and
/// at least one.
pub fn attack_interval(enemy_type: u32, variant: EnemyVariant, is_boss: bool, scale: u32) -> (r: u32)
    requires
        scale <= 10000000,
    ensures
        ({
            let base = if is_boss {
                60
            } else {
                (if enemy_type % 3 == 0 {
                    18int
                } else if enemy_type % 3 == 1 {
                    28int
                } else {
                    38int
                }) + variant_bonus(variant)
            };
            r == (if base * scale / 100 >= 1 {
                base * scale / 100
            } else {
                1
            })
        }),
{
    let base_interval: u32 = if enemy_type % 3 == 0 {
        18
    } else if enemy_type % 3 == 1 {
        28
    } else {
        38
    };
    let bonus: u32 = match variant {
        EnemyVariant::Weak => 0,
        EnemyVariant::Normal => 4,
        EnemyVariant::Strong => 10,
        EnemyVariant::Boss => 22,
    };
    let base: u32 = if is_boss {
        60
    } else {
        base_interval + bonus
    };
    proof {
        assert(base * scale <= 60 * 10000000) by (nonlinear_arith)
            requires
                base <= 60,
                scale <= 10000000,
        ;
    }
    let v: u32 = base * scale / 100;
    if v >= 1 {
        v
    } else {
        1
    }
}

/// Frames a ranged enemy waits after a shot: 42 scaled by `scale`
/// hundredths, at least one.
pub fn ranged_interval(scale: u32) -> (r: u32)
    requires
        scale <= 10000000,
    ensures
        r == (if 42 * scale / 100 >= 1 {
            42 * scale / 100
        } else {
            1
        }),
{
    let v: u32 = 42 * scale / 100;
    if v >= 1 {
        v
    } else {
        1
    }
}

/// The hero's level, experience and points.
#[derive(Clone, Copy, PartialEq, Eq, Structural, Debug)]
pub struct Progress {
    pub level: u32,
    pub exp: u32,
    pub next_level_exp: u32,
    pub hp: u32,
    pub max_hp: u32,
    pub mp: u32,
    pub max_mp: u32,
}

/// The highest level whose need for the next (fifty experience per level)
/// still fits in `u32`.
pub const MAX_LEVEL: u32 = 85899345;

/// One level up: ten more hit points and five more magic points at most,
/// both refilled, and the next level asks for fifty experience per level.
pub open spec fn leveled(p: Progress) -> Progress {
    Progress {
        level: (p.level + 1) as u32,
        exp: p.exp,
        next_level_exp: ((p.level + 1) * 50) as u32,
        hp: (p.max_hp + 10) as u32,
        max_hp: (p.max_hp + 10) as u32,
        mp: (p.max_mp + 5) as u32,
        max_mp: (p.max_mp + 5) as u32,
    }
}

/// Experience spills over: while it reaches the next level's need, the
/// need is paid and the hero levels up.
pub open spec fn settled(p: Progress) -> Progress
    decreases p.exp,
{
    if p.next_level_exp > 0 && p.exp >= p.next_level_exp {
        settled(leveled(Progress { exp: (p.exp - p.next_level_exp) as u32, ..p }))
    } else {
        p
    }
}

impl Progress {
    /// A new hero: level 1, 50 hit points, 30 magic points, 100 experience
    /// to the next level.
    pub fn new() -> (p: Self)
        ensures
            p == (Progress { level: 1, exp: 0, next_level_exp: 100, hp: 50, max_hp: 50, mp: 30, max_mp: 30 }),
    {
        Progress { level: 1, exp: 0, next_level_exp: 100, hp: 50, max_hp: 50, mp: 30, max_mp: 30 }
    }

    pub fn level_up(&mut self)
        requires
            old(self).level < MAX_LEVEL,
            old(self).max_hp <= u32::MAX - 10,
            old(self).max_mp <= u32::MAX - 5,
        ensures
            *final(self) == leveled(*old(self)),
    {
        self.level = self.level + 1;
        self.max_hp = self.max_hp + 10;
        self.max_mp = self.max_mp + 5;
        self.hp = self.max_hp;
        self.mp = self.max_mp;
        self.next_level_exp = self.level * 50;
    }

    /// Adds `amount` experience and levels up as often as it reaches.
    pub fn gain_exp(&mut self, amount: u32)
        requires
            old(self).level >= 1,
            old(self).next_level_exp >= 50,
            old(self).exp + amount <= u32::MAX,
            old(self).level + (old(self).exp + amount) / 50 <= MAX_LEVEL,
            old(self).max_hp + 10 * ((old(self).exp + amount) / 50) <= u32::MAX,
            old(self).max_mp + 5 * ((old(self).exp + amount) / 50) <= u32::MAX,
        ensures
            *final(self) == settled(Progress { exp: (old(self).exp + amount) as u32, ..*old(self) }),
            final(self).exp < final(self).next_level_exp,
    {
        self.exp = self.exp + amount;
        let ghost p0 = *self;
        while self.exp >= self.next_level_exp
            invariant
                settled(*self) == settled(p0),
                growth_room_loose(*self),
                self.level + self.exp / 50 <= MAX_LEVEL,
                self.max_hp + 10 * (self.exp / 50) <= u32::MAX,
                self.max_mp + 5 * (self.exp / 50) <= u32::MAX,
            decreases self.exp,
        {
            let ghost before = *self;
            self.exp = self.exp - self.next_level_exp;
            proof {
                assert(self.exp / 50 + 1 <= before.exp / 50) by (nonlinear_arith)
                    requires
                        self.exp == before.exp - before.next_level_exp,
                        before.next_level_exp >= 50,
                        before.exp >= before.next_level_exp,
                ;
            }
            self.level_up();
            proof {
                assert(self.level * 50 <= MAX_LEVEL * 50) by (nonlinear_arith)
                    requires
                        self.level <= MAX_LEVEL,
                ;
            }
        }
    }
}

/// A level of at least one, and a need of at least fifty for the next.
pub open spec fn growth_room_loose(p: Progress) -> bool {
    &&& 1 <= p.level
    &&& p.next_level_exp >= 50
}

/// A piece of equipment a boss leaves behind.
#[derive(Clone, Copy, PartialEq, Eq, Structural, Debug)]
pub enum Gear {
    Weapon(WeaponType),
    Armor(ArmorType),
    Accessory(AccessoryType),
}

/// What a defeated enemy leaves: `count` of one item, and gear from a boss.
#[derive(Clone, Copy, PartialEq, Eq, Structural, Debug)]
pub struct Drop {
    pub item: ItemType,
    pub count: u32,
    pub gear: Option<Gear>,
}

/// The seed of the drop roll of an enemy defeated at column `x` of floor
/// `depth`.
pub open spec fn drop_seed(depth: u32, x: i32) -> u32 {
    depth.wrapping_mul(12345u32).wrapping_add(x as u32)
}

/// The draw made from state `s`: the state after it and the number drawn.
pub open spec fn draw(s: u32) -> (u32, u32) {
    (lcg32_next(s), lcg32_out(lcg32_next(s)))
}

pub open spec fn potion(k: u32) -> ItemType {
    if k == 0 {
        ItemType::HealthPotion
    } else if k == 1 {
        ItemType::ManaPotion
    } else if k == 2 {
        ItemType::PoisonPotion
    } else {
        ItemType::EnergyDrink
    }
}

/// The item and count from the draws after `seed`, and the state left.
/// Three in ten a potion (one of four kinds), three in ten one to three
/// gems, two in ten a key, one in ten a scroll, one in ten one to five
/// coins.
pub open spec fn item_drop(seed: u32) -> (ItemType, u32, u32) {
    let (s1, roll) = draw(seed);
    let r = roll % 100;
    let (s2, v) = draw(s1);
    if r < 30 {
        (potion(v % 4), 1, s2)
    } else if r < 60 {
        (ItemType::Gem, (v % 3 + 1) as u32, s2)
    } else if r < 80 {
        (ItemType::SkeletonKey, 1, s1)
    } else if r < 90 {
        (ItemType::Scroll, 1, s1)
    } else {
        (ItemType::GoldenCoin, (v % 5 + 1) as u32, s2)
    }
}

/// The gear a boss leaves from the draws after `s`: a weapon (iron sword,
/// spear, bow or staff), an armour (leather, chain or steel) or a ring or
/// necklace (gold ring, lucky ring, healing necklace), one in three each.
pub open spec fn gear_drop(s: u32) -> Gear {
    let (s3, kind) = draw(s);
    let (s4, pick) = draw(s3);
    if kind % 3 == 0 {
        let i = pick % 4;
        Gear::Weapon(
            if i == 0 {
                WeaponType::IronSword
            } else if i == 1 {
                WeaponType::Spear
            } else if i == 2 {
                WeaponType::Bow
            } else {
                WeaponType::Staff
            },
        )
    } else if kind % 3 == 1 {
        let i = pick % 3;
        Gear::Armor(
            if i == 0 {
                ArmorType::LeatherArmor
            } else if i == 1 {
                ArmorType::ChainMail
            } else {
                ArmorType::SteelPlate
            },
        )
    } else {
        let i = pick % 3;
        Gear::Accessory(
            if i == 0 {
                AccessoryType::GoldRing
            } else if i == 1 {
                AccessoryType::LuckyRing
            } else {
                AccessoryType::HealingNecklace
            },
        )
    }
}

pub open spec fn drop_for(depth: u32, x: i32, is_boss: bool) -> Drop {
    let (item, count, s) = item_drop(drop_seed(depth, x));
    Drop {
        item,
        count,
        gear: if is_boss {
            Some(gear_drop(s))
        } else {
            None
        },
    }
}

/// What an enemy defeated at column `x` of floor `depth` leaves behind.
pub fn roll_drop(depth: u32, x: i32, is_boss: bool) -> (d: Drop)
    ensures
        d == drop_for(depth, x, is_boss),
{
    let mut rng = LcgRng::new(depth.wrapping_mul(12345).wrapping_add(x as u32));
    let item_roll = rng.next() % 100;
    let item: ItemType;
    let count: u32;
    if item_roll < 30 {
        let potion_type = rng.next() % 4;
        item = if potion_type == 0 {
            ItemType::HealthPotion
        } else if potion_type == 1 {
            ItemType::ManaPotion
        } else if potion_type == 2 {
            ItemType::PoisonPotion
        } else {
            ItemType::EnergyDrink
        };
        count = 1;
    } else if item_roll < 60 {
        item = ItemType::Gem;
        count = rng.next() % 3 + 1;
    } else if item_roll < 80 {
        item = ItemType::SkeletonKey;
        count = 1;
    } else if item_roll < 90 {
        item = ItemType::Scroll;
        count = 1;
    } else {
        item = ItemType::GoldenCoin;
        count = rng.next() % 5 + 1;
    }
    let gear = if is_boss {
        let drop_type = rng.next() % 3;
        let pick = rng.next() as usize;
        if drop_type == 0 {
            let i = pick % 4;
            Some(
                Gear::Weapon(
                    if i == 0 {
                        WeaponType::IronSword
                    } else if i == 1 {
                        WeaponType::Spear
                    } else if i == 2 {
                        WeaponType::Bow
                    } else {
                        WeaponType::Staff
                    },
                ),
            )
        } else if drop_type == 1 {
            let i = pick % 3;
            Some(
                Gear::Armor(
                    if i == 0 {
                        ArmorType::LeatherArmor
                    } else if i == 1 {
                        ArmorType::ChainMail
                    } else {
                        ArmorType::SteelPlate
                    },
                ),
            )
        } else {
            let i = pick % 3;
            Some(
                Gear::Accessory(
                    if i == 0 {
                        AccessoryType::GoldRing
                    } else if i == 1 {
                        AccessoryType::LuckyRing
                    } else {
                        AccessoryType::HealingNecklace
                    },
                ),
            )
        }
    } else {
        None
    };
    Drop { item, count, gear }
}

/// The step an enemy at (ex, ey) chasing the hero at (px, py) takes: of the
/// walkable neighbours, tried right, left, down, up, the first that is
/// nearest the hero, if it is nearer than the enemy is now; else none.
pub open spec fn chase_moves() -> Seq<(int, int)> {
    seq![(1, 0), (-1, 0), (0, 1), (0, -1)]
}

pub open spec fn manhattan(ax: int, ay: int, bx: int, by: int) -> int {
    abs(ax - bx) + abs(ay - by)
}

impl FloorPlan {
    /// Neighbour `i` of (ex, ey) is walkable and nearer to (px, py) than
    /// (ex, ey) is.
    pub open spec fn closer(&self, ex: int, ey: int, px: int, py: int, i: int) -> bool {
        let (dx, dy) = chase_moves()[i];
        &&& self.walkable(ex + dx, ey + dy)
        &&& manhattan(ex + dx, ey + dy, px, py) < manhattan(ex, ey, px, py)
    }

    pub open spec fn dist_after(&self, ex: int, ey: int, px: int, py: int, i: int) -> int {
        manhattan(ex + chase_moves()[i].0, ey + chase_moves()[i].1, px, py)
    }

    /// The best step among the first `t` tried, with the distance it
    /// leaves: a neighbour replaces the best so far only when it is
    /// walkable and strictly nearer.
    pub open spec fn chase_partial(&self, ex: int, ey: int, px: int, py: int, t: int) -> ((int, int), int)
        decreases t,
    {
        if t <= 0 {
            ((0, 0), manhattan(ex, ey, px, py))
        } else {
            let (b, d) = self.chase_partial(ex, ey, px, py, t - 1);
            let m = chase_moves()[t - 1];
            if self.walkable(ex + m.0, ey + m.1) && manhattan(ex + m.0, ey + m.1, px, py) < d {
                (m, manhattan(ex + m.0, ey + m.1, px, py))
            } else {
                (b, d)
            }
        }
    }

    /// The step an enemy at (ex, ey) takes towards the hero at (px, py).
    pub open spec fn chase_step(&self, ex: int, ey: int, px: int, py: int) -> (int, int) {
        self.chase_partial(ex, ey, px, py, 4).0
    }

    /// The step an enemy at (ex, ey) takes towards the hero at (px, py).
    pub fn pursuit_step(&self, ex: i32, ey: i32, px: i32, py: i32) -> (r: (i32, i32))
        requires
            self.wf(),
            -100000 <= ex <= 100000,
            -100000 <= ey <= 100000,
            -100000 <= px <= 100000,
            -100000 <= py <= 100000,
        ensures
            r == (0i32, 0i32) <==> forall|i: int| 0 <= i < 4 ==> !#[trigger] self.closer(ex as int, ey as int, px as int, py as int, i),
            r != (0i32, 0i32) ==> exists|i: int|
                0 <= i < 4 && #[trigger] self.closer(ex as int, ey as int, px as int, py as int, i) && (r.0 as int, r.1 as int)
                    == chase_moves()[i] && (forall|j: int|
                    0 <= j < i && self.closer(ex as int, ey as int, px as int, py as int, j) ==> self.dist_after(ex as int, ey as int, px as int, py as int, j)
                        > self.dist_after(ex as int, ey as int, px as int, py as int, i)) && (forall|j: int|
                    i < j < 4 && self.closer(ex as int, ey as int, px as int, py as int, j) ==> self.dist_after(ex as int, ey as int, px as int, py as int, j)
                        >= self.dist_after(ex as int, ey as int, px as int, py as int, i)),
            (r.0 as int, r.1 as int) == self.chase_step(ex as int, ey as int, px as int, py as int),
    {
        let ghost (gx, gy, hx, hy) = (ex as int, ey as int, px as int, py as int);
        let dist = (if px >= ex { px - ex } else { ex - px }) + (if py >= ey { py - ey } else { ey - py });
        let mut best: (i32, i32) = (0, 0);
        let mut best_distance = dist;
        let ghost mut best_i: int = -1;
        let moves: [(i32, i32); 4] = [(1, 0), (-1, 0), (0, 1), (0, -1)];
        let mut t: usize = 0;
        while t < 4
            invariant
                self.wf(),
                t <= 4,
                -100000 <= ex <= 100000,
                -100000 <= ey <= 100000,
                -100000 <= px <= 100000,
                -100000 <= py <= 100000,
                gx == ex && gy == ey && hx == px && hy == py,
                forall|k: int| 0 <= k < 4 ==> (moves@[k].0 as int, moves@[k].1 as int) == #[trigger] chase_moves()[k],
                dist == manhattan(gx, gy, hx, hy),
                ((best.0 as int, best.1 as int), best_distance as int) == self.chase_partial(gx, gy, hx, hy, t as int),
                -1 <= best_i < t,
                best_i == -1 ==> best == (0i32, 0i32) && best_distance == dist && forall|j: int|
                    0 <= j < t ==> !#[trigger] self.closer(gx, gy, hx, hy, j),
                best_i >= 0 ==> {
                    &&& self.closer(gx, gy, hx, hy, best_i)
                    &&& (best.0 as int, best.1 as int) == chase_moves()[best_i]
                    &&& best != (0i32, 0i32)
                    &&& best_distance == self.dist_after(gx, gy, hx, hy, best_i)
                    &&& forall|j: int|
                        0 <= j < best_i && self.closer(gx, gy, hx, hy, j) ==> #[trigger] self.dist_after(gx, gy, hx, hy, j)
                            > best_distance
                    &&& forall|j: int|
                        best_i < j < t && self.closer(gx, gy, hx, hy, j) ==> #[trigger] self.dist_after(gx, gy, hx, hy, j)
                            >= best_distance
                },
            decreases 4 - t,
        {
            let (dx, dy) = moves[t];
            let nx = ex + dx;
            let ny = ey + dy;
            proof {
                assert((dx as int, dy as int) == chase_moves()[t as int]);
            }
            if self.is_walkable(nx, ny) {
                let nd = (if px >= nx { px - nx } else { nx - px }) + (if py >= ny { py - ny } else { ny - py });
                if nd < best_distance {
                    best_distance = nd;
                    best = (dx, dy);
                    proof {
                        best_i = t as int;
                    }
                }
            }
            t = t + 1;
        }
        best
    }
}

/// The wandering step of a melee enemy at (ex, ey) after the hero moves:
/// one of the four directions picked from its place.
pub open spec fn wander_delta(ex: int, ey: int) -> (int, int) {
    dir_delta(((ex * 73 + ey * 97) % 4) as i32)
}

pub fn wander_step(ex: i32, ey: i32) -> (r: (i32, i32))
    requires
        0 <= ex <= 100000,
        0 <= ey <= 100000,
    ensures
        (r.0 as int, r.1 as int) == wander_delta(ex as int, ey as int),
{
    let random_move = ((ex * 73 + ey * 97) as usize) % 4;
    if random_move == 0 {
        (0, -1)
    } else if random_move == 1 {
        (-1, 0)
    } else if random_move == 2 {
        (1, 0)
    } else {
        (0, 1)
    }
}

/// Cells a move covers at most: three for a dodge, else one.
pub open spec fn move_steps(dodge: bool) -> int {
    if dodge {
        3
    } else {
        1
    }
}

impl FloorPlan {
    /// A cell one may step onto: walkable, or a hole.
    pub open spec fn passable(&self, x: int, y: int) -> bool {
        self.walkable(x, y) || self.pit(x, y)
    }

    /// Moving up to `steps` cells from (x, y) in direction `dir` passes `k`
    /// cells, all passable, stopping early only before one that is not; of
    /// these, `m` is the last walkable one (0 for the start).
    pub open spec fn move_run(&self, x: int, y: int, dir: i32, steps: int, k: int, m: int) -> bool {
        &&& 0 <= m <= k <= steps
        &&& forall|j: int| 1 <= j <= k ==> #[trigger] self.passable(ray(x, y, dir, j).0, ray(x, y, dir, j).1)
        &&& (k == steps || !self.passable(ray(x, y, dir, k + 1).0, ray(x, y, dir, k + 1).1))
        &&& (m == 0 || self.walkable(ray(x, y, dir, m).0, ray(x, y, dir, m).1))
        &&& forall|j: int| m < j <= k ==> !#[trigger] self.walkable(ray(x, y, dir, j).0, ray(x, y, dir, j).1)
    }

    /// Where the hero at (px, py) ends up moving in direction `dir`: one
    /// cell, or up to three when dodging, through walkable cells and holes;
    /// a dodge that would end in a hole ends on the last walkable cell
    /// crossed instead, while a plain step may end in a hole.
    pub fn resolve_move(&self, px: i32, py: i32, dir: i32, dodge: bool) -> (r: (i32, i32))
        requires
            self.wf(),
            0 <= dir <= 3,
            -100000 <= px <= 100000,
            -100000 <= py <= 100000,
        ensures
            exists|k: int, m: int|
                #[trigger] self.move_run(px as int, py as int, dir, move_steps(dodge), k, m) && (r.0 as int, r.1 as int)
                    == (if dodge && self.pit(ray(px as int, py as int, dir, k).0, ray(px as int, py as int, dir, k).1) {
                    ray(px as int, py as int, dir, m)
                } else {
                    ray(px as int, py as int, dir, k)
                }),
            dodge && !self.pit(px as int, py as int) ==> !self.pit(r.0 as int, r.1 as int),
    {
        let (dx, dy): (i32, i32) = if dir == 0 {
            (0, -1)
        } else if dir == 1 {
            (-1, 0)
        } else if dir == 2 {
            (1, 0)
        } else {
            (0, 1)
        };
        let steps: u32 = if dodge {
            3
        } else {
            1
        };
        let ghost gs: int = steps as int;
        let mut new_x = px;
        let mut new_y = py;
        let mut safe_x = px;
        let mut safe_y = py;
        let ghost mut k: int = 0;
        let ghost mut m: int = 0;
        let mut n: u32 = 0;
        proof {
            lemma_ray_step(px as int, py as int, dir, 0);
        }
        while n < steps
            invariant
                self.wf(),
                0 <= dir <= 3,
                (dx as int, dy as int) == dir_delta(dir),
                -100000 <= px <= 100000,
                -100000 <= py <= 100000,
                steps == (if dodge { 3u32 } else { 1u32 }),
                gs == steps,
                n <= steps,
                k == n,
                -100003 <= new_x <= 100003,
                -100003 <= new_y <= 100003,
                0 <= m <= k,
                (new_x as int, new_y as int) == ray(px as int, py as int, dir, k),
                (safe_x as int, safe_y as int) == ray(px as int, py as int, dir, m),
                forall|j: int| 1 <= j <= k ==> #[trigger] self.passable(ray(px as int, py as int, dir, j).0, ray(px as int, py as int, dir, j).1),
                m == 0 || self.walkable(ray(px as int, py as int, dir, m).0, ray(px as int, py as int, dir, m).1),
                forall|j: int| m < j <= k ==> !#[trigger] self.walkable(ray(px as int, py as int, dir, j).0, ray(px as int, py as int, dir, j).1),
            ensures
                self.move_run(px as int, py as int, dir, gs, k, m),
                (new_x as int, new_y as int) == ray(px as int, py as int, dir, k),
                (safe_x as int, safe_y as int) == ray(px as int, py as int, dir, m),
            decreases steps - n,
        {
            let next_x = new_x + dx;
            let next_y = new_y + dy;
            proof {
                lemma_ray_step(px as int, py as int, dir, k);
            }
            let walk = self.is_walkable(next_x, next_y);
            if walk || self.is_pit(next_x, next_y) {
                new_x = next_x;
                new_y = next_y;
                proof {
                    k = k + 1;
                }
                if walk {
                    safe_x = next_x;
                    safe_y = next_y;
                    proof {
                        m = k;
                    }
                }
            } else {
                break;
            }
            n = n + 1;
        }
        proof {
            assert(gs == move_steps(dodge));
            assert(self.move_run(px as int, py as int, dir, move_steps(dodge), k, m));
        }
        if dodge && self.is_pit(new_x, new_y) {
            new_x = safe_x;
            new_y = safe_y;
        }
        (new_x, new_y)
    }

    /// Marks the cells around (px, py), itself included, as seen.
    pub fn mark_visible(&self, visited: &mut Vec<Vec<bool>>, px: i32, py: i32)
        requires
            self.wf(),
            grid_bool(old(visited)@, self.map_width as int, self.map_height as int),
            -100000 <= px <= 100000,
            -100000 <= py <= 100000,
        ensures
            grid_bool(final(visited)@, self.map_width as int, self.map_height as int),
            forall|x: int, y: int|
                in_grid(x, y, self.map_width as int, self.map_height as int) ==> #[trigger] final(visited)@[y]@[x] == (
                old(visited)@[y]@[x] || (abs(x - px) <= 1 && abs(y - py) <= 1)),
    {
        let ghost v0 = visited@;
        let mut dy: i32 = -1;
        while dy <= 1
            invariant
                self.wf(),
                -1 <= dy <= 2,
                -100000 <= px <= 100000,
                -100000 <= py <= 100000,
                grid_bool(visited@, self.map_width as int, self.map_height as int),
                forall|x: int, y: int|
                    in_grid(x, y, self.map_width as int, self.map_height as int) ==> #[trigger] visited@[y]@[x] == (v0[y]@[x]
                        || (abs(x - px) <= 1 && py - 1 <= y < py + dy)),
            decreases 2 - dy,
        {
            let mut dx: i32 = -1;
            while dx <= 1
                invariant
                    self.wf(),
                    -1 <= dy <= 1,
                    -1 <= dx <= 2,
                    -100000 <= px <= 100000,
                    -100000 <= py <= 100000,
                    grid_bool(visited@, self.map_width as int, self.map_height as int),
                    forall|x: int, y: int|
                        in_grid(x, y, self.map_width as int, self.map_height as int) ==> #[trigger] visited@[y]@[x] == (
                        v0[y]@[x] || (abs(x - px) <= 1 && py - 1 <= y < py + dy) || (y == py + dy && px - 1 <= x < px + dx)),
                decreases 2 - dx,
            {
                let x = px + dx;
                let y = py + dy;
                if x >= 0 && x < self.map_width && y >= 0 && y < self.map_height {
                    let ghost before = visited@;
                    visited[y as usize].set(x as usize, true);
                    proof {
                        assert forall|a: int, b: int|
                            in_grid(a, b, self.map_width as int, self.map_height as int) implies #[trigger] visited@[b]@[a] == (v0[b]@[a]
                                || (abs(a - px) <= 1 && py - 1 <= b < py + dy) || (b == py + dy && px - 1 <= a < px + dx + 1)) by {
                            if b != y {
                                assert(visited@[b] == before[b]);
                            }
                        }
                    }
                }
                dx = dx + 1;
            }
            dy = dy + 1;
        }
    }
}

/// `v` has `height` rows of `width` flags.
pub open spec fn grid_bool(v: Seq<Vec<bool>>, width: int, height: int) -> bool {
    &&& v.len() == height
    &&& forall|j: int| 0 <= j < height ==> (#[trigger] v[j])@.len() == width
}

/// The rows of a grid as sequences.
pub open spec fn rows_view<T>(m: Seq<Vec<T>>) -> Seq<Seq<T>> {
    m.map_values(|r: Vec<T>| r@)
}

/// A floor as it was left: tiles, rooms and the cells seen.
pub struct FloorState {
    pub map: Vec<Vec<TileType>>,
    pub rooms: Vec<Room>,
    pub visited: Vec<Vec<bool>>,
}

pub open spec fn floor_view(f: FloorState) -> (Seq<Seq<TileType>>, Seq<Room>, Seq<Seq<bool>>) {
    (rows_view(f.map@), f.rooms@, rows_view(f.visited@))
}

fn copy_rows<T: Copy>(m: &Vec<Vec<T>>) -> (r: Vec<Vec<T>>)
    ensures
        rows_view(r@) == rows_view(m@),
{
    let mut out: Vec<Vec<T>> = Vec::new();
    let mut j: usize = 0;
    while j < m.len()
        invariant
            j <= m@.len(),
            out@.len() == j,
            forall|k: int| 0 <= k < j ==> (#[trigger] out@[k])@ == m@[k]@,
        decreases m@.len() - j,
    {
        let mut row: Vec<T> = Vec::new();
        let mut i: usize = 0;
        while i < m[j].len()
            invariant
                j < m@.len(),
                i <= m@[j as int]@.len(),
                row@ == m@[j as int]@.subrange(0, i as int),
            decreases m@[j as int]@.len() - i,
        {
            row.push(m[j][i]);
            i = i + 1;
            assert(row@ =~= m@[j as int]@.subrange(0, i as int));
        }
        assert(row@ =~= m@[j as int]@);
        out.push(row);
        j = j + 1;
    }
    assert(rows_view(out@) =~= rows_view(m@));
    out
}

fn copy_rooms(v: &Vec<Room>) -> (r: Vec<Room>)
    ensures
        r@ == v@,
{
    let mut out: Vec<Room> = Vec::new();
    let mut i: usize = 0;
    while i < v.len()
        invariant
            i <= v@.len(),
            out@ == v@.subrange(0, i as int),
        decreases v@.len() - i,
    {
        out.push(v[i]);
        i = i + 1;
        assert(out@ =~= v@.subrange(0, i as int));
    }
    assert(out@ =~= v@);
    out
}

/// `height` rows of `width` unseen cells.
pub fn unseen_grid(width: usize, height: usize) -> (r: Vec<Vec<bool>>)
    ensures
        grid_bool(r@, width as int, height as int),
        forall|x: int, y: int| 0 <= x < width && 0 <= y < height ==> !#[trigger] r@[y]@[x],
{
    let mut out: Vec<Vec<bool>> = Vec::new();
    let mut j: usize = 0;
    while j < height
        invariant
            j <= height,
            out@.len() == j,
            forall|k: int| 0 <= k < j ==> (#[trigger] out@[k])@.len() == width,
            forall|x: int, y: int| 0 <= x < width && 0 <= y < j ==> !#[trigger] out@[y]@[x],
        decreases height - j,
    {
        let mut row: Vec<bool> = Vec::new();
        let mut i: usize = 0;
        while i < width
            invariant
                i <= width,
                row@.len() == i,
                forall|a: int| 0 <= a < i ==> !#[trigger] row@[a],
            decreases width - i,
        {
            row.push(false);
            i = i + 1;
        }
        let ghost before = out@;
        out.push(row);
        proof {
            assert forall|x: int, y: int| 0 <= x < width && 0 <= y < j + 1 implies !#[trigger] out@[y]@[x] by {
                if y < j {
                    assert(out@[y] == before[y]);
                } else {
                    assert(out@[y]@ == row@);
                }
            }
        }
        j = j + 1;
    }
    out
}

impl FloorState {
    /// A copy of the floor.
    pub fn copy(&self) -> (r: FloorState)
        ensures
            floor_view(r) == floor_view(*self),
    {
        FloorState { map: copy_rows(&self.map), rooms: copy_rooms(&self.rooms), visited: copy_rows(&self.visited) }
    }
}

/// The floors of the dungeon, 1 to 30, each kept once visited.
pub struct FloorCache {
    pub floors: Vec<Option<FloorState>>,
}

pub open spec fn slot_view(o: Option<FloorState>) -> Option<(Seq<Seq<TileType>>, Seq<Room>, Seq<Seq<bool>>)> {
    match o {
        Some(f) => Some(floor_view(f)),
        None => None,
    }
}

impl FloorCache {
    pub open spec fn view_of(&self) -> Seq<Option<(Seq<Seq<TileType>>, Seq<Room>, Seq<Seq<bool>>)>> {
        self.floors@.map_values(|o: Option<FloorState>| slot_view(o))
    }

    /// No floor visited yet: 31 empty places (0 unused).
    pub fn new() -> (c: Self)
        ensures
            c.floors@.len() == 31,
            forall|d: int| 0 <= d < 31 ==> #[trigger] c.view_of()[d] is None,
    {
        let mut floors: Vec<Option<FloorState>> = Vec::new();
        let mut i: usize = 0;
        while i < 31
            invariant
                i <= 31,
                floors@.len() == i,
                forall|d: int| 0 <= d < i ==> #[trigger] floors@[d] is None,
            decreases 31 - i,
        {
            floors.push(None);
            i = i + 1;
        }
        FloorCache { floors }
    }

    /// Keeps floor `depth` as `f` is now.
    pub fn save(&mut self, depth: usize, f: &FloorState)
        requires
            depth < old(self).floors@.len(),
        ensures
            final(self).floors@.len() == old(self).floors@.len(),
            final(self).view_of() == old(self).view_of().update(depth as int, Some(floor_view(*f))),
    {
        let c = f.copy();
        self.floors.set(depth, Some(c));
        proof {
            assert(self.view_of() =~= old(self).view_of().update(depth as int, Some(floor_view(*f))));
        }
    }

    /// Records the cells seen on floor `depth`; a floor not kept yet is kept
    /// whole.
    pub fn save_progress(&mut self, depth: usize, current: &FloorState)
        requires
            depth < old(self).floors@.len(),
        ensures
            final(self).floors@.len() == old(self).floors@.len(),
            final(self).view_of() == old(self).view_of().update(
                depth as int,
                Some(
                    match old(self).view_of()[depth as int] {
                        Some(v) => (v.0, v.1, rows_view(current.visited@)),
                        None => floor_view(*current),
                    },
                ),
            ),
    {
        let updated = match &self.floors[depth] {
            Some(saved) => FloorState {
                map: copy_rows(&saved.map),
                rooms: copy_rooms(&saved.rooms),
                visited: copy_rows(&current.visited),
            },
            None => current.copy(),
        };
        self.floors.set(depth, Some(updated));
        proof {
            assert(self.view_of() =~= old(self).view_of().update(
                depth as int,
                Some(
                    match old(self).view_of()[depth as int] {
                        Some(v) => (v.0, v.1, rows_view(current.visited@)),
                        None => floor_view(*current),
                    },
                ),
            ));
        }
    }

    /// Floor `depth` as it was left, or, never visited, laid out anew from
    /// the depth with nothing seen, and kept.
    pub fn load(&mut self, depth: usize) -> (f: FloorState)
        requires
            old(self).floors@.len() == 31,
            1 <= depth <= 30,
        ensures
            final(self).floors@.len() == 31,
            match old(self).view_of()[depth as int] {
                Some(v) => floor_view(f) == v && final(self).view_of() == old(self).view_of(),
                None => {
                    let w = 120 + (depth - 1) * 4;
                    let h = 80 + (depth - 1) * 2;
                    &&& grid(f.map@, w, h)
                    &&& rooms_ok(f.rooms@, w, h)
                    &&& 1 <= f.rooms@.len() <= 12
                    &&& forall|x: int, y: int| in_grid(x, y, w, h) ==> #[trigger] tile(f.map@, x, y) == dungeon_tile(f.rooms@, x, y)
                    &&& grid_bool(f.visited@, w, h)
                    &&& forall|x: int, y: int| in_grid(x, y, w, h) ==> !#[trigger] f.visited@[y]@[x]
                    &&& final(self).view_of() == old(self).view_of().update(depth as int, Some(floor_view(f)))
                },
            },
    {
        match &self.floors[depth] {
            Some(saved) => {
                let f = saved.copy();
                proof {
                    assert(old(self).view_of()[depth as int] == slot_view(old(self).floors@[depth as int]));
                }
                return f;
            },
            None => {},
        }
        proof {
            assert(old(self).view_of()[depth as int] == slot_view(old(self).floors@[depth as int]));
        }
        let plan = FloorPlan::generate(depth as u32);
        let visited = unseen_grid(plan.map_width as usize, plan.map_height as usize);
        let f = FloorState { map: plan.map, rooms: plan.rooms, visited };
        self.save(depth, &f);
        f
    }
}

/// A floor, once left, is found again as it was left: what `save` keeps
/// at a depth is what `load` hands back there.
pub proof fn lemma_floor_kept(c: FloorCache, depth: int, f: FloorState)
    requires
        0 <= depth < c.floors@.len(),
    ensures
        c.view_of().update(depth, Some(floor_view(f)))[depth] == Some(floor_view(f)),
        forall|d: int| 0 <= d < c.floors@.len() && d != depth ==> #[trigger] c.view_of().update(depth, Some(floor_view(f)))[d] == c.view_of()[d],
{
}

/// The floor below, unless already on the deepest (30).
pub fn next_floor_target(depth: u32) -> (r: Option<u32>)
    ensures
        depth >= 30 ==> r is None,
        depth < 30 ==> r == Some((depth + 1) as u32),
{
    if depth >= 30 {
        None
    } else {
        Some(depth + 1)
    }
}

/// The floor above, unless already on the first.
pub fn prev_floor_target(depth: u32) -> (r: Option<u32>)
    ensures
        depth <= 1 ==> r is None,
        depth > 1 ==> r == Some((depth - 1) as u32),
{
    if depth <= 1 {
        None
    } else {
        Some(depth - 1)
    }
}

/// A jump to floor `target` (kept within 1 to 30), only while playing and
/// only to another floor.
pub fn jump_target(playing: bool, depth: u32, target: u32) -> (r: Option<u32>)
    ensures
        ({
            let t = if target < 1 {
                1
            } else if target > 30 {
                30
            } else {
                target
            };
            r == (if !playing || t == depth {
                None
            } else {
                Some(t as u32)
            })
        }),
{
    if !playing {
        return None;
    }
    let t = if target < 1 {
        1
    } else if target > 30 {
        30
    } else {
        target
    };
    if t == depth {
        None
    } else {
        Some(t)
    }
}

/// Cell (x, y) is taken by one of `occupied`.
pub open spec fn taken(occupied: Seq<(i32, i32)>, x: int, y: int) -> bool {
    exists|i: int| 0 <= i < occupied.len() && #[trigger] occupied[i] == (x as i32, y as i32)
}

impl FloorPlan {
    /// One try, from rng state `s`, at a free walkable cell inside room `r`
    /// (one cell in from its walls): the cell if it is good, and the state
    /// after the two draws.
    #[verifier::opaque]
    pub open spec fn one_try(&self, r: Room, occupied: Seq<(i32, i32)>, s: u32) -> (Option<(int, int)>, u32) {
        let (s1, a) = draw(s);
        let (s2, b) = draw(s1);
        let x = r.x + 1 + a % ((r.width - 2) as u32);
        let y = r.y + 1 + b % ((r.height - 2) as u32);
        (if self.walkable(x, y) && !taken(occupied, x, y) {
            Some((x, y))
        } else {
            None
        }, s2)
    }

    /// The first good cell of `n` tries from rng state `s`.
    pub open spec fn try_spots(&self, r: Room, occupied: Seq<(i32, i32)>, s: u32, n: nat) -> Option<(int, int)>
        decreases n,
    {
        if n == 0 {
            None
        } else {
            match self.one_try(r, occupied, s).0 {
                Some(p) => Some(p),
                None => self.try_spots(r, occupied, self.one_try(r, occupied, s).1, (n - 1) as nat),
            }
        }
    }

    /// Where the hero arrives on floor `depth` coming from column `from_x`:
    /// a room picked at random, then thirty tries at a free cell in it, else
    /// its centre. Returns the cell and the room's number.
    pub open spec fn arrival(&self, depth: u32, from_x: i32, occupied: Seq<(i32, i32)>) -> (int, int, int) {
        let seed = depth.wrapping_mul(7919u32).wrapping_add(from_x as u32);
        let (s1, pick) = draw(seed);
        let i = (pick as int) % (self.rooms@.len() as int);
        let r = self.rooms@[i as int];
        match self.try_spots(r, occupied, s1, 30) {
            Some((x, y)) => (x, y, i as int),
            None => (r.x + r.width / 2, r.y + r.height / 2, i as int),
        }
    }

    /// The hero arrives on the floor, in one of its rooms.
    pub proof fn lemma_arrival_inside(&self, depth: u32, from_x: i32, occupied: Seq<(i32, i32)>)
        requires
            self.rooms@.len() >= 1,
            forall|i: int| 0 <= i < self.rooms@.len() ==> room_ok(#[trigger] self.rooms@[i], self.map_width as int, self.map_height as int),
        ensures
            in_grid(self.arrival(depth, from_x, occupied).0, self.arrival(depth, from_x, occupied).1, self.map_width as int, self.map_height as int),
            0 <= self.arrival(depth, from_x, occupied).2 < self.rooms@.len(),
    {
        let seed = depth.wrapping_mul(7919u32).wrapping_add(from_x as u32);
        let (s1, pick) = draw(seed);
        let i = (pick as int) % (self.rooms@.len() as int);
        let r = self.rooms@[i];
        assert(room_ok(r, self.map_width as int, self.map_height as int));
        self.lemma_spot_walkable(r, occupied, s1, 30);
    }

    proof fn lemma_spot_walkable(&self, r: Room, occupied: Seq<(i32, i32)>, s: u32, n: nat)
        ensures
            self.try_spots(r, occupied, s, n) matches Some((x, y)) ==> self.walkable(x, y),
        decreases n,
    {
        reveal(FloorPlan::one_try);
        if n > 0 {
            self.lemma_spot_walkable(r, occupied, self.one_try(r, occupied, s).1, (n - 1) as nat);
        }
    }

    /// One try at a free walkable cell of room `room` from two draws.
    fn try_spot(&self, room: Room, occupied: &Vec<(i32, i32)>, rng: &mut LcgRng) -> (r: Option<(i32, i32)>)
        requires
            self.wf(),
            room_ok(room, self.map_width as int, self.map_height as int),
        ensures
            final(rng).state == self.one_try(room, occupied@, old(rng).state).1,
            match self.one_try(room, occupied@, old(rng).state).0 {
                Some((x, y)) => r == Some((x as i32, y as i32)),
                None => r is None,
            },
    {
        reveal(FloorPlan::one_try);
        let a = rng.next();
        let b = rng.next();
        let x = room.x + 1 + (a % ((room.width - 2) as u32)) as i32;
        let y = room.y + 1 + (b % ((room.height - 2) as u32)) as i32;
        let mut free = true;
        let mut k: usize = 0;
        while k < occupied.len()
            invariant
                k <= occupied@.len(),
                free == forall|j: int| 0 <= j < k ==> occupied@[j] != (x, y),
            decreases occupied@.len() - k,
        {
            if occupied[k].0 == x && occupied[k].1 == y {
                free = false;
            }
            k = k + 1;
        }
        proof {
            if !free {
                let j = choose|j: int| 0 <= j < occupied@.len() && !(occupied@[j] != (x, y));
                assert(taken(occupied@, x as int, y as int));
            }
            if taken(occupied@, x as int, y as int) {
                let j = choose|j: int| 0 <= j < occupied@.len() && #[trigger] occupied@[j] == (x as i32, y as i32);
                assert(occupied@[j] == (x, y));
            }
        }
        if self.is_walkable(x, y) && free {
            Some((x, y))
        } else {
            None
        }
    }

    /// Thirty tries at a free walkable cell of `room`.
    fn search_room(&self, room: Room, occupied: &Vec<(i32, i32)>, rng: &mut LcgRng) -> (res: Option<(i32, i32)>)
        requires
            self.wf(),
            room_ok(room, self.map_width as int, self.map_height as int),
        ensures
            match self.try_spots(room, occupied@, old(rng).state, 30) {
                Some((x, y)) => res == Some((x as i32, y as i32)),
                None => res is None,
            },
    {
        let ghost s_start = rng.state;
        let mut n: u32 = 0;
        while n < 30
            invariant
                self.wf(),
                room_ok(room, self.map_width as int, self.map_height as int),
                n <= 30,
                s_start == old(rng).state,
                self.try_spots(room, occupied@, rng.state, (30 - n) as nat) == self.try_spots(room, occupied@, s_start, 30),
            decreases 30 - n,
        {
            let ghost s0 = rng.state;
            let spot = self.try_spot(room, occupied, rng);
            match spot {
                Some((x, y)) => {
                    proof {
                        assert(self.try_spots(room, occupied@, s0, (30 - n) as nat) == self.one_try(room, occupied@, s0).0);
                    }
                    return Some((x, y));
                },
                None => {},
            }
            n = n + 1;
        }
        None
    }

    /// The hero's place on arriving at floor `depth` from column `from_x`,
    /// with the enemies at `occupied`; nothing when the floor has no room.
    #[verifier::rlimit(40)]
    pub fn place_in_random_room(&self, depth: u32, from_x: i32, occupied: &Vec<(i32, i32)>) -> (r: Option<(i32, i32, usize)>)
        requires
            self.wf(),
            forall|i: int| 0 <= i < self.rooms@.len() ==> room_ok(#[trigger] self.rooms@[i], self.map_width as int, self.map_height as int),
        ensures
            self.rooms@.len() == 0 ==> r is None,
            self.rooms@.len() > 0 ==> r is Some && (r.unwrap().0 as int, r.unwrap().1 as int, r.unwrap().2 as int) == self.arrival(
                depth,
                from_x,
                occupied@,
            ),
    {
        if self.rooms.len() == 0 {
            return None;
        }
        let seed = depth.wrapping_mul(7919).wrapping_add(from_x as u32);
        let mut rng = LcgRng::new(seed);
        let pick = rng.next();
        proof {
            assert(draw(seed) == (rng.state, pick));
            assert(seed == depth.wrapping_mul(7919u32).wrapping_add(from_x as u32));
        }
        let room_index = (pick as usize) % self.rooms.len();
        let room = self.rooms[room_index];
        let ghost s1 = rng.state;
        proof {
            assert(room_ok(room, self.map_width as int, self.map_height as int));
            assert(self.arrival(depth, from_x, occupied@) == match self.try_spots(room, occupied@, s1, 30) {
                Some((x, y)) => (x, y, room_index as int),
                None => (room.x + room.width / 2, room.y + room.height / 2, room_index as int),
            });
        }
        proof {
            self.lemma_spot_walkable(room, occupied@, s1, 30);
        }
        match self.search_room(room, occupied, &mut rng) {
            Some((x, y)) => {
                return Some((x, y, room_index));
            },
            None => {},
        }
        Some((room.x + room.width / 2, room.y + room.height / 2, room_index))
    }
}

/// An enemy on the floor: its cell, strength and timers. (Its name and
/// colour stay with the page.)
#[derive(Clone, Copy, PartialEq, Eq, Structural, Debug)]
pub struct RogueEnemy {
    pub x: i32,
    pub y: i32,
    pub hp: u32,
    pub max_hp: u32,
    pub enemy_type: u32,
    pub variant: EnemyVariant,
    pub atk: u32,
    pub def: u32,
    pub drop_rate: u32,
    pub is_boss: bool,
    pub pursuit_timer: u32,
    pub can_see_player: bool,
    pub attack_cooldown: u32,
}

/// The enemy is rested and stands next to the hero at (px, py).
pub open spec fn ready_to_strike(e: RogueEnemy, px: int, py: int) -> bool {
    e.attack_cooldown == 0 && abs(e.x - px) + abs(e.y - py) == 1
}

/// The damage announced for a blow of enemy `e`, as `incoming_damage`
/// computes it from the enemy's attack plus three.
pub open spec fn blow_damage(e: RogueEnemy, def_bonus: u32, guarding: bool) -> int {
    let base = e.atk + 3;
    let reduced = if base - def_bonus * 80 / 100 >= 1 {
        base - def_bonus * 80 / 100
    } else {
        1
    };
    if guarding {
        if reduced / 3 >= 1 {
            reduced / 3
        } else {
            1
        }
    } else {
        reduced
    }
}

/// The cooldown an enemy gets after striking, as `attack_interval` gives.
pub open spec fn cooldown_of(e: RogueEnemy, scale: u32) -> int {
    let base = if e.is_boss {
        60
    } else {
        (if e.enemy_type % 3 == 0 {
            18int
        } else if e.enemy_type % 3 == 1 {
            28int
        } else {
            38int
        }) + variant_bonus(e.variant)
    };
    if base * scale / 100 >= 1 {
        base * scale / 100
    } else {
        1
    }
}

/// The blows of the first `n` enemies: which strike, in order, with the
/// damage announced.
pub open spec fn blows(es: Seq<RogueEnemy>, n: int, px: int, py: int, def_bonus: u32, guarding: bool) -> Seq<(usize, u32)>
    decreases n,
{
    if n <= 0 {
        Seq::empty()
    } else {
        let prev = blows(es, n - 1, px, py, def_bonus, guarding);
        if ready_to_strike(es[n - 1], px, py) {
            prev.push(((n - 1) as usize, blow_damage(es[n - 1], def_bonus, guarding) as u32))
        } else {
            prev
        }
    }
}

/// The hero's hit points after the blows of the first `n` enemies; each
/// takes its damage, or nothing in no-damage mode, never below zero.
pub open spec fn hp_after_blows(
    es: Seq<RogueEnemy>,
    n: int,
    px: int,
    py: int,
    def_bonus: u32,
    guarding: bool,
    no_damage: bool,
    hp: int,
) -> int
    decreases n,
{
    if n <= 0 {
        hp
    } else {
        let h = hp_after_blows(es, n - 1, px, py, def_bonus, guarding, no_damage, hp);
        if ready_to_strike(es[n - 1], px, py) && !no_damage {
            let d = blow_damage(es[n - 1], def_bonus, guarding);
            if h >= d {
                h - d
            } else {
                0
            }
        } else {
            h
        }
    }
}

/// The enemies next to the hero at (px, py) that are rested strike, each in
/// turn: the hero loses the damage (nothing in no-damage mode; a third when
/// guarding with a sword) and each striker waits its cooldown. Returns who
/// struck and the damage announced, for the messages.
pub fn melee_attacks(
    enemies: &mut Vec<RogueEnemy>,
    px: i32,
    py: i32,
    def_bonus: u32,
    guarding: bool,
    no_damage: bool,
    scale: u32,
    hp: &mut u32,
) -> (hits: Vec<(usize, u32)>)
    requires
        -100000 <= px <= 100000,
        -100000 <= py <= 100000,
        def_bonus <= 1000000,
        scale <= 10000000,
        forall|i: int|
            0 <= i < old(enemies)@.len() ==> #[trigger] old(enemies)@[i].atk <= 100000 && -100000 <= old(
                enemies,
            )@[i].x <= 100000 && -100000 <= old(enemies)@[i].y <= 100000,
    ensures
        hits@ == blows(old(enemies)@, old(enemies)@.len() as int, px as int, py as int, def_bonus, guarding),
        *final(hp) == hp_after_blows(
            old(enemies)@,
            old(enemies)@.len() as int,
            px as int,
            py as int,
            def_bonus,
            guarding,
            no_damage,
            *old(hp) as int,
        ),
        final(enemies)@.len() == old(enemies)@.len(),
        forall|i: int|
            0 <= i < old(enemies)@.len() ==> #[trigger] final(enemies)@[i] == (if ready_to_strike(
                old(enemies)@[i],
                px as int,
                py as int,
            ) {
                RogueEnemy { attack_cooldown: cooldown_of(old(enemies)@[i], scale) as u32, ..old(enemies)@[i] }
            } else {
                old(enemies)@[i]
            }),
{
    let ghost es = enemies@;
    let mut hits: Vec<(usize, u32)> = Vec::new();
    let mut i: usize = 0;
    while i < enemies.len()
        invariant
            es.len() == enemies@.len(),
            i <= es.len(),
            -100000 <= px <= 100000,
            -100000 <= py <= 100000,
            def_bonus <= 1000000,
            scale <= 10000000,
            forall|k: int| 0 <= k < es.len() ==> #[trigger] es[k].atk <= 100000 && -100000 <= es[k].x <= 100000 && -100000 <= es[k].y <= 100000,
            hits@ == blows(es, i as int, px as int, py as int, def_bonus, guarding),
            *hp == hp_after_blows(es, i as int, px as int, py as int, def_bonus, guarding, no_damage, *old(hp) as int),
            forall|k: int| i <= k < es.len() ==> #[trigger] enemies@[k] == es[k],
            forall|k: int|
                0 <= k < i ==> #[trigger] enemies@[k] == (if ready_to_strike(es[k], px as int, py as int) {
                    RogueEnemy { attack_cooldown: cooldown_of(es[k], scale) as u32, ..es[k] }
                } else {
                    es[k]
                }),
        decreases es.len() - i,
    {
        let e = enemies[i];
        assert(e == es[i as int]);
        assert(e.atk <= 100000 && -100000 <= e.x <= 100000 && -100000 <= e.y <= 100000);
        let dx = if e.x >= px { e.x - px } else { px - e.x };
        let dy = if e.y >= py { e.y - py } else { py - e.y };
        if e.attack_cooldown == 0 && dx + dy == 1 {
            let (damage, taken) = incoming_damage((e.atk + 3) as i32, def_bonus, guarding, no_damage);
            *hp = hp_after(*hp, taken);
            hits.push((i, damage));
            let cd = attack_interval(e.enemy_type, e.variant, e.is_boss, scale);
            enemies.set(i, RogueEnemy { attack_cooldown: cd, ..e });
        }
        i = i + 1;
    }
    hits
}

/// In no-damage mode enemy blows leave the hero's hit points as they are;
/// otherwise they never raise them.
pub proof fn lemma_blows_never_heal(
    es: Seq<RogueEnemy>,
    n: int,
    px: int,
    py: int,
    def_bonus: u32,
    guarding: bool,
    no_damage: bool,
    hp: int,
)
    requires
        hp >= 0,
    ensures
        no_damage ==> hp_after_blows(es, n, px, py, def_bonus, guarding, no_damage, hp) == hp,
        0 <= hp_after_blows(es, n, px, py, def_bonus, guarding, no_damage, hp) <= hp,
    decreases n,
{
    if n > 0 {
        lemma_blows_never_heal(es, n - 1, px, py, def_bonus, guarding, no_damage, hp);
    }
}

/// What a strike at a cell did to the enemy standing there.
#[derive(Clone, Copy, PartialEq, Eq, Structural, Debug)]
pub struct Strike {
    pub index: usize,
    pub dealt: u32,
    pub defeated: bool,
    pub was_boss: bool,
}

/// The hit points an enemy keeps after losing `dealt`.
pub open spec fn hp_left(hp: u32, dealt: int) -> int {
    if hp >= dealt {
        hp - dealt
    } else {
        0
    }
}

/// The damage a strike of `damage` deals to an enemy with defence `def`.
pub open spec fn dealt_to(damage: u32, def: u32) -> int {
    if damage - def >= 1 {
        damage - def
    } else {
        1
    }
}

/// A strike of `damage` at (tx, ty) hits the first enemy standing there:
/// its defence comes off (at least one point stays), its hit points drop,
/// and at zero it is removed. Returns what happened, or nothing when no
/// enemy stands there.
pub fn strike_at(enemies: &mut Vec<RogueEnemy>, tx: i32, ty: i32, damage: u32) -> (r: Option<Strike>)
    requires
        damage <= i32::MAX,
        forall|i: int| 0 <= i < old(enemies)@.len() ==> #[trigger] old(enemies)@[i].def <= i32::MAX,
    ensures
        match r {
            None => {
                &&& final(enemies)@ == old(enemies)@
                &&& forall|i: int| 0 <= i < old(enemies)@.len() ==> !(#[trigger] old(enemies)@[i].x == tx && old(enemies)@[i].y == ty)
            },
            Some(h) => {
                let i = h.index as int;
                let e = old(enemies)@[i];
                let left = hp_left(e.hp, dealt_to(damage, e.def));
                &&& 0 <= i < old(enemies)@.len()
                &&& e.x == tx && e.y == ty
                &&& forall|j: int| 0 <= j < i ==> !(#[trigger] old(enemies)@[j].x == tx && old(enemies)@[j].y == ty)
                &&& h.dealt == dealt_to(damage, e.def)
                &&& h.was_boss == e.is_boss
                &&& h.defeated == (left == 0)
                &&& final(enemies)@ == (if left == 0 {
                    old(enemies)@.remove(i)
                } else {
                    old(enemies)@.update(i, RogueEnemy { hp: left as u32, ..e })
                })
            },
        },
{
    let mut i: usize = 0;
    while i < enemies.len()
        invariant
            enemies@ == old(enemies)@,
            i <= enemies@.len(),
            damage <= i32::MAX,
            forall|k: int| 0 <= k < old(enemies)@.len() ==> #[trigger] old(enemies)@[k].def <= i32::MAX,
            forall|j: int| 0 <= j < i ==> !(#[trigger] enemies@[j].x == tx && enemies@[j].y == ty),
        decreases enemies@.len() - i,
    {
        let e = enemies[i];
        if e.x == tx && e.y == ty {
            proof {
                assert(e == old(enemies)@[i as int]);
            }
            let dealt = strike_damage(damage, e.def);
            let left = hp_after(e.hp, dealt);
            if left == 0 {
                enemies.remove(i);
            } else {
                enemies.set(i, RogueEnemy { hp: left, ..e });
            }
            return Some(Strike { index: i, dealt, defeated: left == 0, was_boss: e.is_boss });
        }
        i = i + 1;
    }
    None
}

/// Experience for a defeated enemy: 500 for a boss, else 10.
pub fn exp_for(was_boss: bool) -> (r: u32)
    ensures
        r == (if was_boss { 500u32 } else { 10u32 }),
{
    if was_boss {
        500
    } else {
        10
    }
}

/// Enemy kinds that keep their distance and shoot.
pub open spec fn ranged_kind(t: u32) -> bool {
    t == 3 || t == 10 || t == 16 || t == 22 || t == 28
}

/// Where a melee enemy tries to wander to: its cell moved by `wander_delta`.
pub open spec fn wander_goal(e: RogueEnemy) -> (int, int) {
    let d = wander_delta(e.x as int, e.y as int);
    (e.x + d.0, e.y + d.1)
}

/// Some enemy other than the `i`-th stands at (x, y).
pub open spec fn other_at(es: Seq<RogueEnemy>, i: int, x: int, y: int) -> bool {
    exists|j: int| 0 <= j < es.len() && j != i && #[trigger] es[j].x == x && es[j].y == y
}

/// Every enemy stands inside a floor of the given size.
pub open spec fn enemies_inside(es: Seq<RogueEnemy>, w: int, h: int) -> bool {
    forall|i: int| 0 <= i < es.len() ==> #[trigger] in_grid(es[i].x as int, es[i].y as int, w, h)
}

/// The damage of an enemy's shot: its attack plus two.
pub open spec fn shot_damage(e: RogueEnemy) -> int {
    e.atk + 2
}

impl FloorPlan {
    /// The `i`-th enemy's wandering turn: a melee enemy steps to its goal
    /// when that cell is walkable, not the hero's and not another enemy's;
    /// ranged enemies stay.
    pub open spec fn wander_one(&self, es: Seq<RogueEnemy>, i: int, px: int, py: int) -> Seq<RogueEnemy> {
        let e = es[i];
        let g = wander_goal(e);
        if !ranged_kind(e.enemy_type) && self.walkable(g.0, g.1) && !(g.0 == px && g.1 == py)
            && !other_at(es, i, g.0, g.1) {
            es.update(i, RogueEnemy { x: g.0 as i32, y: g.1 as i32, ..e })
        } else {
            es
        }
    }

    /// The enemies after the first `n` of them took their wandering turn,
    /// one after the other.
    pub open spec fn wandered(&self, es: Seq<RogueEnemy>, n: int, px: int, py: int) -> Seq<RogueEnemy>
        decreases n,
    {
        if n <= 0 {
            es
        } else {
            self.wander_one(self.wandered(es, n - 1, px, py), n - 1, px, py)
        }
    }

    /// After the hero at (px, py) stepped, each enemy in turn wanders one
    /// cell (see `wander_one`).
    pub fn wander_enemies(&self, enemies: &mut Vec<RogueEnemy>, px: i32, py: i32)
        requires
            self.wf(),
            enemies_inside(old(enemies)@, self.map_width as int, self.map_height as int),
        ensures
            final(enemies)@ == self.wandered(old(enemies)@, old(enemies)@.len() as int, px as int, py as int),
            enemies_inside(final(enemies)@, self.map_width as int, self.map_height as int),
    {
        let ghost es = enemies@;
        let n = enemies.len();
        let mut i: usize = 0;
        while i < n
            invariant
                self.wf(),
                n == es.len(),
                i <= n,
                enemies@.len() == n,
                enemies@ == self.wandered(es, i as int, px as int, py as int),
                enemies_inside(enemies@, self.map_width as int, self.map_height as int),
            decreases n - i,
        {
            let e = enemies[i];
            assert(in_grid(e.x as int, e.y as int, self.map_width as int, self.map_height as int));
            if !crate::roguelike::is_ranged_enemy_type(e.enemy_type) {
                let (dx, dy) = wander_step(e.x, e.y);
                let gx = e.x + dx;
                let gy = e.y + dy;
                if self.is_walkable(gx, gy) && (gx != px || gy != py) {
                    let mut occupied = false;
                    let mut j: usize = 0;
                    while j < n
                        invariant
                            n == enemies@.len(),
                            j <= n,
                            i < n,
                            occupied == exists|k: int|
                                0 <= k < j && k != i && #[trigger] enemies@[k].x == gx && enemies@[k].y == gy,
                        decreases n - j,
                    {
                        if j != i && enemies[j].x == gx && enemies[j].y == gy {
                            occupied = true;
                        }
                        j = j + 1;
                    }
                    if !occupied {
                        enemies.set(i, RogueEnemy { x: gx, y: gy, ..e });
                    }
                }
            }
            i = i + 1;
        }
    }

    /// The step the `i`-th enemy means to take this frame: none for a
    /// ranged kind; towards the hero (see `chase_step`) for one that sees or
    /// has seen the hero, within fifteen cells, once its pursuit timer is
    /// due; else none.
    pub open spec fn pursuit_move(&self, e: RogueEnemy, px: int, py: int) -> (int, int) {
        if ranged_kind(e.enemy_type) {
            (0, 0)
        } else if (manhattan(e.x as int, e.y as int, px, py) <= 15 || e.can_see_player) && e.pursuit_timer + 1 >= 60 {
            self.chase_step(e.x as int, e.y as int, px, py)
        } else {
            (0, 0)
        }
    }

    /// The `i`-th enemy's pursuit frame: it takes its step when the cell
    /// is walkable and neither the hero's nor another enemy's; then, within
    /// fifteen cells of the hero, it has seen the hero and its timer
    /// advances; a timer at sixty starts over.
    pub open spec fn pursue_one(&self, es: Seq<RogueEnemy>, i: int, px: int, py: int) -> Seq<RogueEnemy> {
        let e = es[i];
        let mv = self.pursuit_move(e, px, py);
        let g = (e.x + mv.0, e.y + mv.1);
        let moves = mv != (0int, 0int) && self.walkable(g.0, g.1) && !other_at(es, i, g.0, g.1)
            && !(g.0 == px && g.1 == py);
        let c = if moves { g } else { (e.x as int, e.y as int) };
        let near = manhattan(c.0, c.1, px, py) <= 15;
        let timer = if near { e.pursuit_timer + 1 } else { e.pursuit_timer as int };
        es.update(
            i,
            RogueEnemy {
                x: c.0 as i32,
                y: c.1 as i32,
                can_see_player: near || e.can_see_player,
                pursuit_timer: (if timer >= 60 { 0 } else { timer }) as u32,
                ..e
            },
        )
    }

    /// The enemies after the first `n` of them took their pursuit frame,
    /// one after the other.
    pub open spec fn pursued(&self, es: Seq<RogueEnemy>, n: int, px: int, py: int) -> Seq<RogueEnemy>
        decreases n,
    {
        if n <= 0 {
            es
        } else {
            self.pursue_one(self.pursued(es, n - 1, px, py), n - 1, px, py)
        }
    }

    /// One frame of the enemies' pursuit of the hero at (px, py): each
    /// enemy in turn takes its pursuit frame (see `pursue_one`).
    pub fn pursue_enemies(&self, enemies: &mut Vec<RogueEnemy>, px: i32, py: i32)
        requires
            self.wf(),
            -100000 <= px <= 100000,
            -100000 <= py <= 100000,
            enemies_inside(old(enemies)@, self.map_width as int, self.map_height as int),
            forall|i: int| 0 <= i < old(enemies)@.len() ==> #[trigger] old(enemies)@[i].pursuit_timer < u32::MAX,
        ensures
            final(enemies)@ == self.pursued(old(enemies)@, old(enemies)@.len() as int, px as int, py as int),
            enemies_inside(final(enemies)@, self.map_width as int, self.map_height as int),
    {
        let ghost es = enemies@;
        let n = enemies.len();
        let mut i: usize = 0;
        while i < n
            invariant
                self.wf(),
                -100000 <= px <= 100000,
                -100000 <= py <= 100000,
                n == es.len(),
                i <= n,
                enemies@.len() == n,
                enemies@ == self.pursued(es, i as int, px as int, py as int),
                enemies_inside(enemies@, self.map_width as int, self.map_height as int),
                forall|k: int| i <= k < n ==> #[trigger] enemies@[k] == es[k],
                forall|k: int| 0 <= k < n ==> #[trigger] es[k].pursuit_timer < u32::MAX,
            decreases n - i,
        {
            assert(enemies@[i as int] == es[i as int]);
            self.pursue_index(enemies, i, px, py);
            i = i + 1;
        }
    }

    /// The pursuit frame of the `i`-th enemy alone.
    #[verifier::rlimit(60)]
    fn pursue_index(&self, enemies: &mut Vec<RogueEnemy>, i: usize, px: i32, py: i32)
        requires
            self.wf(),
            -100000 <= px <= 100000,
            -100000 <= py <= 100000,
            i < old(enemies)@.len(),
            enemies_inside(old(enemies)@, self.map_width as int, self.map_height as int),
            old(enemies)@[i as int].pursuit_timer < u32::MAX,
        ensures
            final(enemies)@ == self.pursue_one(old(enemies)@, i as int, px as int, py as int),
            enemies_inside(final(enemies)@, self.map_width as int, self.map_height as int),
    {
        let n = enemies.len();
        let e = enemies[i];
        assert(in_grid(e.x as int, e.y as int, self.map_width as int, self.map_height as int));
        let dx = if px >= e.x { px - e.x } else { e.x - px };
        let dy = if py >= e.y { py - e.y } else { e.y - py };
        let mut mv: (i32, i32) = (0, 0);
        if crate::roguelike::is_ranged_enemy_type(e.enemy_type) {
        } else if (dx + dy <= 15 || e.can_see_player) && e.pursuit_timer + 1 >= 60 {
            mv = self.pursuit_step(e.x, e.y, px, py);
        }
        assert((mv.0 as int, mv.1 as int) == self.pursuit_move(e, px as int, py as int));
        let mut nx = e.x;
        let mut ny = e.y;
        if mv.0 != 0 || mv.1 != 0 {
            let gx = e.x + mv.0;
            let gy = e.y + mv.1;
            let mut occupied = false;
            let mut j: usize = 0;
            while j < n
                invariant
                    n == enemies@.len(),
                    j <= n,
                    i < n,
                    occupied == exists|k: int|
                        0 <= k < j && k != i && #[trigger] enemies@[k].x == gx && enemies@[k].y == gy,
                decreases n - j,
            {
                if j != i && enemies[j].x == gx && enemies[j].y == gy {
                    occupied = true;
                }
                j = j + 1;
            }
            if self.is_walkable(gx, gy) && !occupied && !(px == gx && py == gy) {
                nx = gx;
                ny = gy;
            }
        }
        let ndx = if px >= nx { px - nx } else { nx - px };
        let ndy = if py >= ny { py - ny } else { ny - py };
        let near = ndx + ndy <= 15;
        let mut timer = e.pursuit_timer;
        let mut sees = e.can_see_player;
        if near {
            sees = true;
            timer = timer + 1;
        }
        if timer >= 60 {
            timer = 0;
        }
        enemies.set(i, RogueEnemy { x: nx, y: ny, can_see_player: sees, pursuit_timer: timer, ..e });
    }

    /// The `i`-th enemy fires at the hero at (px, py): it is of a ranged
    /// kind, rested, and has a clear line.
    pub open spec fn fires(&self, e: RogueEnemy, px: int, py: int) -> bool {
        ranged_kind(e.enemy_type) && e.attack_cooldown == 0 && self.clear_line(e.x as int, e.y as int, px, py)
    }

    /// The shots of the first `n` enemies, in order: who fires and the
    /// damage of the shot.
    pub open spec fn shots(&self, es: Seq<RogueEnemy>, n: int, px: int, py: int) -> Seq<(usize, u32)>
        decreases n,
    {
        if n <= 0 {
            Seq::empty()
        } else {
            let prev = self.shots(es, n - 1, px, py);
            if self.fires(es[n - 1], px, py) {
                prev.push(((n - 1) as usize, shot_damage(es[n - 1]) as u32))
            } else {
                prev
            }
        }
    }

    /// Every ranged enemy that is rested and has a clear line fires at the
    /// hero at (px, py) and then waits `ranged_interval(scale)` frames.
    /// Returns who fired and each shot's damage, in order.
    pub fn ranged_volley(&self, enemies: &mut Vec<RogueEnemy>, px: i32, py: i32, scale: u32) -> (shots: Vec<(usize, u32)>)
        requires
            self.wf(),
            -100000 <= px <= 100000,
            -100000 <= py <= 100000,
            scale <= 10000000,
            forall|i: int| 0 <= i < old(enemies)@.len() ==> #[trigger] old(enemies)@[i].atk <= 100000
                && -100000 <= old(enemies)@[i].x <= 100000 && -100000 <= old(enemies)@[i].y <= 100000,
        ensures
            shots@ == self.shots(old(enemies)@, old(enemies)@.len() as int, px as int, py as int),
            final(enemies)@.len() == old(enemies)@.len(),
            forall|i: int| 0 <= i < old(enemies)@.len() ==> #[trigger] final(enemies)@[i] == (if self.fires(
                old(enemies)@[i],
                px as int,
                py as int,
            ) {
                RogueEnemy {
                    attack_cooldown: (if 42 * scale / 100 >= 1 { 42 * scale / 100 } else { 1 }) as u32,
                    ..old(enemies)@[i]
                }
            } else {
                old(enemies)@[i]
            }),
    {
        let ghost es = enemies@;
        let mut out: Vec<(usize, u32)> = Vec::new();
        let mut i: usize = 0;
        while i < enemies.len()
            invariant
                self.wf(),
                es.len() == enemies@.len(),
                i <= es.len(),
                -100000 <= px <= 100000,
                -100000 <= py <= 100000,
                scale <= 10000000,
                forall|k: int| 0 <= k < es.len() ==> #[trigger] es[k].atk <= 100000 && -100000 <= es[k].x <= 100000
                    && -100000 <= es[k].y <= 100000,
                out@ == self.shots(es, i as int, px as int, py as int),
                forall|k: int| i <= k < es.len() ==> #[trigger] enemies@[k] == es[k],
                forall|k: int| 0 <= k < i ==> #[trigger] enemies@[k] == (if self.fires(es[k], px as int, py as int) {
                    RogueEnemy {
                        attack_cooldown: (if 42 * scale / 100 >= 1 { 42 * scale / 100 } else { 1 }) as u32,
                        ..es[k]
                    }
                } else {
                    es[k]
                }),
            decreases es.len() - i,
        {
            let e = enemies[i];
            assert(e == es[i as int]);
            assert(e.atk <= 100000 && -100000 <= e.x <= 100000 && -100000 <= e.y <= 100000);
            if crate::roguelike::is_ranged_enemy_type(e.enemy_type) && e.attack_cooldown == 0
                && self.has_clear_shot(px, py, e.x, e.y) {
                out.push((i, e.atk + 2));
                let cd = ranged_interval(scale);
                enemies.set(i, RogueEnemy { attack_cooldown: cd, ..e });
            }
            i = i + 1;
        }
        out
    }
}

/// Every enemy's attack cooldown one frame on: down by one, never below
/// zero.
pub fn cool_down_enemies(enemies: &mut Vec<RogueEnemy>)
    ensures
        final(enemies)@.len() == old(enemies)@.len(),
        forall|i: int| 0 <= i < old(enemies)@.len() ==> #[trigger] final(enemies)@[i] == (RogueEnemy {
            attack_cooldown: (if old(enemies)@[i].attack_cooldown > 0 {
                old(enemies)@[i].attack_cooldown - 1
            } else {
                0
            }) as u32,
            ..old(enemies)@[i]
        }),
{
    let ghost es = enemies@;
    let mut i: usize = 0;
    while i < enemies.len()
        invariant
            enemies@.len() == es.len(),
            i <= es.len(),
            forall|k: int| i <= k < es.len() ==> #[trigger] enemies@[k] == es[k],
            forall|k: int| 0 <= k < i ==> #[trigger] enemies@[k] == (RogueEnemy {
                attack_cooldown: (if es[k].attack_cooldown > 0 { es[k].attack_cooldown - 1 } else { 0 }) as u32,
                ..es[k]
            }),
        decreases es.len() - i,
    {
        let e = enemies[i];
        if e.attack_cooldown > 0 {
            enemies.set(i, RogueEnemy { attack_cooldown: e.attack_cooldown - 1, ..e });
        }
        i = i + 1;
    }
}

/// The attack marks still shown one frame later, in order: each loses a
/// frame, and those with none left are gone.
pub open spec fn aged_effects(s: Seq<AttackEffect>) -> Seq<AttackEffect>
    decreases s.len(),
{
    if s.len() == 0 {
        Seq::empty()
    } else {
        let prev = aged_effects(s.drop_last());
        let e = s.last();
        if e.ttl > 1 {
            prev.push(AttackEffect { ttl: (e.ttl - 1) as u32, ..e })
        } else {
            prev
        }
    }
}

/// The damage numbers still shown one frame later, in order.
pub open spec fn aged_numbers(s: Seq<DamageNumber>) -> Seq<DamageNumber>
    decreases s.len(),
{
    if s.len() == 0 {
        Seq::empty()
    } else {
        let prev = aged_numbers(s.drop_last());
        let d = s.last();
        if d.ttl > 1 {
            prev.push(DamageNumber { ttl: (d.ttl - 1) as u32, ..d })
        } else {
            prev
        }
    }
}

/// Ages the attack marks by one frame (see `aged_effects`).
pub fn age_effects(effects: &mut Vec<AttackEffect>)
    ensures
        final(effects)@ == aged_effects(old(effects)@),
{
    let ghost s = effects@;
    let mut out: Vec<AttackEffect> = Vec::new();
    let mut i: usize = 0;
    while i < effects.len()
        invariant
            effects@ == s,
            i <= s.len(),
            out@ == aged_effects(s.take(i as int)),
        decreases s.len() - i,
    {
        proof {
            assert(s.take(i + 1).drop_last() =~= s.take(i as int));
        }
        let e = &effects[i];
        if e.ttl > 1 {
            out.push(AttackEffect { x: e.x, y: e.y, ttl: e.ttl - 1, max_ttl: e.max_ttl, color: e.color });
        }
        i = i + 1;
    }
    proof {
        assert(s.take(s.len() as int) =~= s);
    }
    *effects = out;
}

/// Ages the damage numbers by one frame (see `aged_numbers`).
pub fn age_numbers(numbers: &mut Vec<DamageNumber>)
    ensures
        final(numbers)@ == aged_numbers(old(numbers)@),
{
    let ghost s = numbers@;
    let mut out: Vec<DamageNumber> = Vec::new();
    let mut i: usize = 0;
    while i < numbers.len()
        invariant
            numbers@ == s,
            i <= s.len(),
            out@ == aged_numbers(s.take(i as int)),
        decreases s.len() - i,
    {
        proof {
            assert(s.take(i + 1).drop_last() =~= s.take(i as int));
        }
        let d = &numbers[i];
        if d.ttl > 1 {
            out.push(
                DamageNumber { x: d.x, y: d.y, amount: d.amount, ttl: d.ttl - 1, max_ttl: d.max_ttl, color: d.color },
            );
        }
        i = i + 1;
    }
    proof {
        assert(s.take(s.len() as int) =~= s);
    }
    *numbers = out;
}

/// The attack marks for the cells of a blow on a floor `w` by `h`: one per
/// cell inside the floor, in order, each shown `ttl` frames.
pub open spec fn marks_for(cells: Seq<(i32, i32)>, w: int, h: int, ttl: u32, color: &'static str) -> Seq<AttackEffect>
    decreases cells.len(),
{
    if cells.len() == 0 {
        Seq::empty()
    } else {
        let prev = marks_for(cells.drop_last(), w, h, ttl, color);
        let c = cells.last();
        if in_grid(c.0 as int, c.1 as int, w, h) {
            prev.push(AttackEffect { x: c.0, y: c.1, ttl, max_ttl: ttl, color })
        } else {
            prev
        }
    }
}

/// Adds the attack marks for `cells` (see `marks_for`) after the marks
/// already shown.
pub fn push_attack_effects(
    effects: &mut Vec<AttackEffect>,
    cells: &Vec<(i32, i32)>,
    w: i32,
    h: i32,
    ttl: u32,
    color: &'static str,
)
    ensures
        final(effects)@ == old(effects)@ + marks_for(cells@, w as int, h as int, ttl, color),
{
    let ghost s = cells@;
    let ghost start = effects@;
    let mut i: usize = 0;
    while i < cells.len()
        invariant
            cells@ == s,
            i <= s.len(),
            effects@ == start + marks_for(s.take(i as int), w as int, h as int, ttl, color),
        decreases s.len() - i,
    {
        proof {
            assert(s.take(i + 1).drop_last() =~= s.take(i as int));
        }
        let (x, y) = cells[i];
        if x >= 0 && x < w && y >= 0 && y < h {
            effects.push(AttackEffect { x, y, ttl, max_ttl: ttl, color });
            proof {
                assert(start + marks_for(s.take(i + 1), w as int, h as int, ttl, color) =~= (start + marks_for(
                    s.take(i as int),
                    w as int,
                    h as int,
                    ttl,
                    color,
                )).push(AttackEffect { x, y, ttl, max_ttl: ttl, color }));
            }
        }
        i = i + 1;
    }
    proof {
        assert(s.take(s.len() as int) =~= s);
    }
}

/// The slot of an item kind in the hero's pack, in the order of `ItemType`.
pub open spec fn item_slot(i: ItemType) -> int {
    match i {
        ItemType::HealthPotion => 0,
        ItemType::ManaPotion => 1,
        ItemType::PoisonPotion => 2,
        ItemType::EnergyDrink => 3,
        ItemType::Gem => 4,
        ItemType::SkeletonKey => 5,
        ItemType::Scroll => 6,
        ItemType::GoldenCoin => 7,
    }
}

pub fn item_index(i: ItemType) -> (r: usize)
    ensures
        r == item_slot(i),
{
    match i {
        ItemType::HealthPotion => 0,
        ItemType::ManaPotion => 1,
        ItemType::PoisonPotion => 2,
        ItemType::EnergyDrink => 3,
        ItemType::Gem => 4,
        ItemType::SkeletonKey => 5,
        ItemType::Scroll => 6,
        ItemType::GoldenCoin => 7,
    }
}

/// Puts a drop into the hero's packs: the items join their slot and any
/// gear goes to the end of its list.
pub fn take_drop(inventory: &mut [u32; 8], gear: &mut EquipmentInventory, d: Drop)
    requires
        old(inventory)@[item_slot(d.item)] + d.count <= u32::MAX,
    ensures
        final(inventory)@ == old(inventory)@.update(item_slot(d.item), (old(inventory)@[item_slot(d.item)] + d.count) as u32),
        final(gear).weapons@ == (match d.gear {
            Some(Gear::Weapon(w)) => old(gear).weapons@.push(w),
            _ => old(gear).weapons@,
        }),
        final(gear).armors@ == (match d.gear {
            Some(Gear::Armor(a)) => old(gear).armors@.push(a),
            _ => old(gear).armors@,
        }),
        final(gear).accessories@ == (match d.gear {
            Some(Gear::Accessory(a)) => old(gear).accessories@.push(a),
            _ => old(gear).accessories@,
        }),
{
    let k = item_index(d.item);
    let v = inventory[k];
    inventory[k] = v + d.count;
    match d.gear {
        Some(Gear::Weapon(w)) => gear.weapons.push(w),
        Some(Gear::Armor(a)) => gear.armors.push(a),
        Some(Gear::Accessory(a)) => gear.accessories.push(a),
        None => {},
    }
}

impl Equipment {
    /// Wields the `idx`-th weapon of the pack when there is one; returns
    /// whether it did.
    pub fn equip_weapon(&mut self, pack: &EquipmentInventory, idx: usize) -> (r: bool)
        ensures
            r == (idx < pack.weapons@.len()),
            r ==> final(self).weapon == Some(pack.weapons@[idx as int]),
            !r ==> final(self).weapon == old(self).weapon,
            final(self).armor == old(self).armor,
            final(self).accessory == old(self).accessory,
    {
        if idx < pack.weapons.len() {
            self.weapon = Some(pack.weapons[idx]);
            return true;
        }
        false
    }

    /// Wears the `idx`-th armour of the pack when there is one; returns
    /// whether it did.
    pub fn equip_armor(&mut self, pack: &EquipmentInventory, idx: usize) -> (r: bool)
        ensures
            r == (idx < pack.armors@.len()),
            r ==> final(self).armor == Some(pack.armors@[idx as int]),
            !r ==> final(self).armor == old(self).armor,
            final(self).weapon == old(self).weapon,
            final(self).accessory == old(self).accessory,
    {
        if idx < pack.armors.len() {
            self.armor = Some(pack.armors[idx]);
            return true;
        }
        false
    }

    /// Puts on the `idx`-th accessory of the pack when there is one;
    /// returns whether it did.
    pub fn equip_accessory(&mut self, pack: &EquipmentInventory, idx: usize) -> (r: bool)
        ensures
            r == (idx < pack.accessories@.len()),
            r ==> final(self).accessory == Some(pack.accessories@[idx as int]),
            !r ==> final(self).accessory == old(self).accessory,
            final(self).weapon == old(self).weapon,
            final(self).armor == old(self).armor,
    {
        if idx < pack.accessories.len() {
            self.accessory = Some(pack.accessories[idx]);
            return true;
        }
        false
    }

    pub fn unequip_weapon(&mut self)
        ensures
            final(self).weapon.is_none(),
            final(self).armor == old(self).armor,
            final(self).accessory == old(self).accessory,
    {
        self.weapon = None;
    }

    pub fn unequip_armor(&mut self)
        ensures
            final(self).armor.is_none(),
            final(self).weapon == old(self).weapon,
            final(self).accessory == old(self).accessory,
    {
        self.armor = None;
    }

    pub fn unequip_accessory(&mut self)
        ensures
            final(self).accessory.is_none(),
            final(self).weapon == old(self).weapon,
            final(self).armor == old(self).armor,
    {
        self.accessory = None;
    }
}

} // verus!
