//! How the ghosts of the dot-eating game pick their way: each has a target
//! cell by its character and mode, and at a crossing takes the open
//! direction nearest to it (farthest, when frightened), never turning back
//! unless frightened and never entering the ghost house from outside.
//! The positions in pixels and the timers stay with the page; the rules
//! work on grid cells.
use vstd::prelude::*;
use crate::pacman::{TileMap, tile, board, dots_left, eaten, on_board, is_dot_tile};

verus! {

#[derive(Clone, Copy, PartialEq, Eq, Structural, Debug)]
pub enum GhostType {
    Blinky,
    Pinky,
    Inky,
    Clyde,
}

#[derive(Clone, Copy, PartialEq, Eq, Structural, Debug)]
pub enum GhostMode {
    Chase,
    Scatter,
    Frightened,
    Eaten,
}

/// Column step of direction `d`: 0 up, 1 right, 2 down, 3 left.
pub open spec fn dir_dx(d: int) -> int {
    if d == 1 {
        1
    } else if d == 3 {
        -1
    } else {
        0
    }
}

/// Row step of direction `d`.
pub open spec fn dir_dy(d: int) -> int {
    if d == 0 {
        -1
    } else if d == 2 {
        1
    } else {
        0
    }
}

/// The ghost's start cell (row, column) and the corner it heads for when
/// scattering.
pub open spec fn home_of(t: GhostType) -> ((int, int), (int, int)) {
    match t {
        GhostType::Blinky => ((11, 13), (0, 25)),
        GhostType::Pinky => ((13, 13), (0, 2)),
        GhostType::Inky => ((13, 11), (30, 27)),
        GhostType::Clyde => ((13, 15), (30, 0)),
    }
}

/// Start cell and scatter corner of a ghost of type `t`; all but Blinky
/// start inside the house.
pub fn ghost_home(t: GhostType) -> (r: ((i32, i32), (i32, i32), bool))
    ensures
        ((r.0.0 as int, r.0.1 as int), (r.1.0 as int, r.1.1 as int)) == home_of(t),
        r.2 == (t != GhostType::Blinky),
{
    match t {
        GhostType::Blinky => ((11, 13), (0, 25), false),
        GhostType::Pinky => ((13, 13), (0, 2), true),
        GhostType::Inky => ((13, 11), (30, 27), true),
        GhostType::Clyde => ((13, 15), (30, 0), true),
    }
}

/// A power pellet frightens every ghost not already eaten, and turns it
/// round.
pub fn frighten(mode: GhostMode, dir: i32) -> (r: (GhostMode, i32))
    requires
        0 <= dir <= 3,
    ensures
        mode == GhostMode::Eaten ==> r == (mode, dir),
        mode != GhostMode::Eaten ==> r.0 == GhostMode::Frightened && r.1 == (dir + 2) % 4,
{
    if mode != GhostMode::Eaten {
        (GhostMode::Frightened, (dir + 2) % 4)
    } else {
        (mode, dir)
    }
}

pub open spec fn clamp(v: int, lo: int, hi: int) -> int {
    if v < lo {
        lo
    } else if v > hi {
        hi
    } else {
        v
    }
}

/// `v` fits an `i32`.
pub open spec fn fits_i32(v: int) -> bool {
    i32::MIN <= v <= i32::MAX
}

/// The `i32` arithmetic of a target stays in range: the pixel mix when
/// frightened, the cells ahead of the hero for Pinky and Inky, and the
/// differences to the hero for Clyde.
pub open spec fn target_fits(
    t: GhostType,
    mode: GhostMode,
    row: int,
    col: int,
    x_px: int,
    y_px: int,
    pr: int,
    pc: int,
    pd: int,
    br: int,
    bc: int,
) -> bool {
    let mr = pr + dir_dy(pd) * 2;
    let mc = pc + dir_dx(pd) * 2;
    &&& mode == GhostMode::Frightened ==> fits_i32(x_px * 7) && fits_i32(y_px * 3) && fits_i32(x_px * 7 + y_px * 3)
        && x_px * 7 + y_px * 3 != i32::MIN
    &&& mode == GhostMode::Chase && t == GhostType::Pinky ==> fits_i32(pr + dir_dy(pd) * 4) && fits_i32(
        pc + dir_dx(pd) * 4,
    )
    &&& mode == GhostMode::Chase && t == GhostType::Inky ==> fits_i32(mr) && fits_i32(mc) && fits_i32(mr - br)
        && fits_i32(mc - bc) && fits_i32(mr + (mr - br)) && fits_i32(mc + (mc - bc))
    &&& mode == GhostMode::Chase && t == GhostType::Clyde ==> fits_i32(row - pr) && fits_i32(col - pc)
}

/// The cell a ghost aims at. Scattering: its corner. Frightened: a cell
/// picked from its pixel position (`x_px`, `y_px`). Eaten: the house door.
/// Chasing: Blinky the hero's cell; Pinky four cells ahead of the hero;
/// Inky the point that mirrors Blinky's cell through the cell two ahead of
/// the hero; Clyde the hero while more than eight cells away, else its
/// corner.
pub open spec fn target_of(
    t: GhostType,
    mode: GhostMode,
    row: int,
    col: int,
    x_px: int,
    y_px: int,
    pr: int,
    pc: int,
    pd: int,
    br: int,
    bc: int,
) -> (int, int) {
    let scatter = home_of(t).1;
    match mode {
        GhostMode::Scatter => scatter,
        GhostMode::Frightened => {
            let v = x_px * 7 + y_px * 3;
            let m = (if v < 0 {
                -v
            } else {
                v
            }) % 868;
            (m / 28, m % 28)
        },
        GhostMode::Eaten => (11, 13),
        GhostMode::Chase => match t {
            GhostType::Blinky => (pr, pc),
            GhostType::Pinky => (clamp(pr + dir_dy(pd) * 4, 0, 30), clamp(pc + dir_dx(pd) * 4, 0, 27)),
            GhostType::Inky => {
                let mr = pr + dir_dy(pd) * 2;
                let mc = pc + dir_dx(pd) * 2;
                (clamp(mr + (mr - br), 0, 30), clamp(mc + (mc - bc), 0, 27))
            },
            GhostType::Clyde => {
                let dr = row - pr;
                let dc = col - pc;
                if dr * dr + dc * dc > 64 {
                    (pr, pc)
                } else {
                    scatter
                }
            },
        },
    }
}

fn clamp_i32(v: i32, lo: i32, hi: i32) -> (r: i32)
    requires
        lo <= hi,
    ensures
        r == clamp(v as int, lo as int, hi as int),
{
    if v < lo {
        lo
    } else if v > hi {
        hi
    } else {
        v
    }
}

/// The target cell of a ghost at cell (row, col), pixel position (x_px,
/// y_px), with the hero at (pr, pc) facing `pd` and Blinky at (br, bc).
pub fn get_target(
    t: GhostType,
    mode: GhostMode,
    row: i32,
    col: i32,
    x_px: i32,
    y_px: i32,
    pr: i32,
    pc: i32,
    pd: i32,
    br: i32,
    bc: i32,
) -> (r: (i32, i32))
    requires
        0 <= pd <= 3,
        target_fits(
            t,
            mode,
            row as int,
            col as int,
            x_px as int,
            y_px as int,
            pr as int,
            pc as int,
            pd as int,
            br as int,
            bc as int,
        ),
    ensures
        (r.0 as int, r.1 as int) == target_of(
            t,
            mode,
            row as int,
            col as int,
            x_px as int,
            y_px as int,
            pr as int,
            pc as int,
            pd as int,
            br as int,
            bc as int,
        ),
{
    let dx: i32 = if pd == 1 {
        1
    } else if pd == 3 {
        -1
    } else {
        0
    };
    let dy: i32 = if pd == 0 {
        -1
    } else if pd == 2 {
        1
    } else {
        0
    };
    match mode {
        GhostMode::Scatter => {
            let (_, s, _) = ghost_home(t);
            s
        },
        GhostMode::Frightened => {
            let v = x_px * 7 + y_px * 3;
            let a = if v < 0 {
                -v
            } else {
                v
            };
            let m = a % 868;
            (m / 28, m % 28)
        },
        GhostMode::Eaten => (11, 13),
        GhostMode::Chase => match t {
            GhostType::Blinky => (pr, pc),
            GhostType::Pinky => (clamp_i32(pr + dy * 4, 0, 30), clamp_i32(pc + dx * 4, 0, 27)),
            GhostType::Inky => {
                let mr = pr + dy * 2;
                let mc = pc + dx * 2;
                (clamp_i32(mr + (mr - br), 0, 30), clamp_i32(mc + (mc - bc), 0, 27))
            },
            GhostType::Clyde => {
                let dr = (row - pr) as i64;
                let dc = (col - pc) as i64;
                proof {
                    assert(dr * dr <= 0x4000_0000_0000_0000 && dr * dr >= 0) by (nonlinear_arith)
                        requires
                            -0x8000_0000 <= dr <= 0x7fff_ffff,
                    ;
                    assert(dc * dc <= 0x4000_0000_0000_0000 && dc * dc >= 0) by (nonlinear_arith)
                        requires
                            -0x8000_0000 <= dc <= 0x7fff_ffff,
                    ;
                }
                if dr * dr > 64 || dc * dc > 64 || dr * dr + dc * dc > 64 {
                    (pr, pc)
                } else {
                    let (_, s, _) = ghost_home(t);
                    s
                }
            },
        },
    }
}

/// The tile at (row, col), counting off the board as wall.
pub open spec fn tile_or_wall(m: TileMap, row: int, col: int) -> u8 {
    if 0 <= row < 31 && 0 <= col < 28 {
        tile(m.tiles, row, col)
    } else {
        1
    }
}

/// A ghost at (row, col) heading `dir` in `mode` may turn to `d`: not back
/// the way it came unless frightened, onto a passable cell, and into the
/// ghost house only from inside or when eaten.
pub open spec fn may_turn(m: TileMap, dir: int, mode: GhostMode, in_house: bool, row: int, col: int, d: int) -> bool {
    let nr = row + dir_dy(d);
    let nc = col + dir_dx(d);
    &&& !(d == (dir + 2) % 4 && mode != GhostMode::Frightened)
    &&& 0 <= nr < 31 && tile(m.tiles, nr, nc % 28) != 1
    &&& !(tile_or_wall(m, nr, nc) == 4 && !in_house && mode != GhostMode::Eaten)
}

/// Squared distance from the cell in direction `d` of (row, col) to the
/// target.
pub open spec fn turn_dist(row: int, col: int, d: int, tr: int, tc: int) -> int {
    let dr = row + dir_dy(d) - tr;
    let dc = col + dir_dx(d) - tc;
    dr * dr + dc * dc
}

/// The arithmetic of a turn stays in range: the neighbouring cells are
/// `i32`s, and for each allowed turn the differences to the target are
/// `i32`s and the squared distance an `i64`.
pub open spec fn turn_fits(m: TileMap, dir: int, mode: GhostMode, in_house: bool, row: int, col: int, tr: int, tc: int) -> bool {
    &&& i32::MIN < row < i32::MAX
    &&& i32::MIN < col < i32::MAX
    &&& forall|d: int|
        0 <= d < 4 && #[trigger] may_turn(m, dir, mode, in_house, row, col, d) ==> fits_i32(row + dir_dy(d) - tr)
            && fits_i32(col + dir_dx(d) - tc) && turn_dist(row, col, d, tr, tc) <= i64::MAX
}

/// A sum of two squares is never 3 more than a multiple of 4, so never
/// `i64::MAX`.
proof fn lemma_two_squares_not_max(a: int, b: int)
    ensures
        a * a + b * b != i64::MAX,
{
    assert((a * a) % 4 == 0 || (a * a) % 4 == 1) by (nonlinear_arith)
    {
        let k = a / 2;
        assert(a == 2 * k || a == 2 * k + 1);
        if a == 2 * k {
            assert(a * a == 4 * (k * k));
        } else {
            assert(a * a == 4 * (k * k + k) + 1);
        }
    }
    assert((b * b) % 4 == 0 || (b * b) % 4 == 1) by (nonlinear_arith)
    {
        let k = b / 2;
        assert(b == 2 * k || b == 2 * k + 1);
        if b == 2 * k {
            assert(b * b == 4 * (k * k));
        } else {
            assert(b * b == 4 * (k * k + k) + 1);
        }
    }
}

/// Direction `r` is the choice among the allowed ones: the first nearest
/// to the target, or when frightened the first farthest.
pub open spec fn best_turn(
    m: TileMap,
    dir: int,
    mode: GhostMode,
    in_house: bool,
    row: int,
    col: int,
    tr: int,
    tc: int,
    r: int,
) -> bool {
    let fr = mode == GhostMode::Frightened;
    &&& 0 <= r < 4
    &&& may_turn(m, dir, mode, in_house, row, col, r)
    &&& forall|j: int|
        0 <= j < r && #[trigger] may_turn(m, dir, mode, in_house, row, col, j) ==> if fr {
            turn_dist(row, col, j, tr, tc) < turn_dist(row, col, r, tr, tc)
        } else {
            turn_dist(row, col, j, tr, tc) > turn_dist(row, col, r, tr, tc)
        }
    &&& forall|j: int|
        r < j < 4 && #[trigger] may_turn(m, dir, mode, in_house, row, col, j) ==> if fr {
            turn_dist(row, col, j, tr, tc) <= turn_dist(row, col, r, tr, tc)
        } else {
            turn_dist(row, col, j, tr, tc) >= turn_dist(row, col, r, tr, tc)
        }
}

/// The direction a ghost at (row, col) heading `dir` takes at a cell
/// centre, aiming at (tr, tc); it keeps `dir` when no way is allowed.
pub fn choose_direction(
    m: &TileMap,
    dir: i32,
    mode: GhostMode,
    in_house: bool,
    row: i32,
    col: i32,
    tr: i32,
    tc: i32,
) -> (r: i32)
    requires
        0 <= dir <= 3,
        turn_fits(*m, dir as int, mode, in_house, row as int, col as int, tr as int, tc as int),
    ensures
        (forall|d: int| 0 <= d < 4 ==> !#[trigger] may_turn(*m, dir as int, mode, in_house, row as int, col as int, d))
            ==> r == dir,
        (exists|d: int| 0 <= d < 4 && #[trigger] may_turn(*m, dir as int, mode, in_house, row as int, col as int, d))
            ==> best_turn(*m, dir as int, mode, in_house, row as int, col as int, tr as int, tc as int, r as int),
{
    let reverse = (dir + 2) % 4;
    let mut best_dir = dir;
    let mut best_dist: i64 = i64::MAX;
    let ghost mut found: bool = false;
    let fr = mode == GhostMode::Frightened;
    let mut d: i32 = 0;
    while d < 4
        invariant
            0 <= d <= 4,
            0 <= dir <= 3,
            reverse == (dir + 2) % 4,
            fr == (mode == GhostMode::Frightened),
            turn_fits(*m, dir as int, mode, in_house, row as int, col as int, tr as int, tc as int),
            !found ==> best_dir == dir && best_dist == i64::MAX && forall|j: int|
                0 <= j < d ==> !#[trigger] may_turn(*m, dir as int, mode, in_house, row as int, col as int, j),
            found ==> {
                &&& 0 <= best_dir < d
                &&& may_turn(*m, dir as int, mode, in_house, row as int, col as int, best_dir as int)
                &&& best_dist == turn_dist(row as int, col as int, best_dir as int, tr as int, tc as int)
                &&& best_dist < i64::MAX
                &&& forall|j: int|
                    0 <= j < best_dir && #[trigger] may_turn(*m, dir as int, mode, in_house, row as int, col as int, j)
                        ==> if fr {
                        turn_dist(row as int, col as int, j, tr as int, tc as int) < best_dist
                    } else {
                        turn_dist(row as int, col as int, j, tr as int, tc as int) > best_dist
                    }
                &&& forall|j: int|
                    best_dir < j < d && #[trigger] may_turn(*m, dir as int, mode, in_house, row as int, col as int, j)
                        ==> if fr {
                        turn_dist(row as int, col as int, j, tr as int, tc as int) <= best_dist
                    } else {
                        turn_dist(row as int, col as int, j, tr as int, tc as int) >= best_dist
                    }
            },
        decreases 4 - d,
    {
        let ddx: i32 = if d == 1 {
            1
        } else if d == 3 {
            -1
        } else {
            0
        };
        let ddy: i32 = if d == 0 {
            -1
        } else if d == 2 {
            1
        } else {
            0
        };
        let nr = row + ddy;
        let nc = col + ddx;
        let house = if nr >= 0 && nr < 31 && nc >= 0 && nc < 28 {
            m.tiles[nr as usize][nc as usize]
        } else {
            1
        };
        let allowed = !(d == reverse && !fr) && m.is_passable(nr, nc) && !(house == 4 && !in_house && mode
            != GhostMode::Eaten);
        proof {
            assert(allowed == may_turn(*m, dir as int, mode, in_house, row as int, col as int, d as int));
        }
        if allowed {
            let dr = (nr - tr) as i64;
            let dc = (nc - tc) as i64;
            proof {
                assert(dr * dr >= 0 && dc * dc >= 0) by (nonlinear_arith);
                assert(dr * dr + dc * dc <= i64::MAX);
                lemma_two_squares_not_max(dr as int, dc as int);
            }
            let dist = dr * dr + dc * dc;
            proof {
                assert(dist == turn_dist(row as int, col as int, d as int, tr as int, tc as int));
            }
            if fr {
                if dist > best_dist || best_dist == i64::MAX {
                    best_dist = dist;
                    best_dir = d;
                    proof {
                        found = true;
                    }
                }
            } else if dist < best_dist {
                best_dist = dist;
                best_dir = d;
                proof {
                    found = true;
                }
            }
        }
        d = d + 1;
    }
    best_dir
}

fn fits_i32_check(v: i64) -> (r: bool)
    ensures
        r == fits_i32(v as int),
{
    -0x8000_0000 <= v && v <= 0x7fff_ffff
}

/// Whether `get_target`'s arithmetic stays in range (see `target_fits`).
pub fn target_in_range(
    t: GhostType,
    mode: GhostMode,
    row: i32,
    col: i32,
    x_px: i32,
    y_px: i32,
    pr: i32,
    pc: i32,
    pd: i32,
    br: i32,
    bc: i32,
) -> (r: bool)
    requires
        0 <= pd <= 3,
    ensures
        r == target_fits(
            t,
            mode,
            row as int,
            col as int,
            x_px as int,
            y_px as int,
            pr as int,
            pc as int,
            pd as int,
            br as int,
            bc as int,
        ),
{
    let dx: i64 = if pd == 1 { 1 } else if pd == 3 { -1 } else { 0 };
    let dy: i64 = if pd == 0 { -1 } else if pd == 2 { 1 } else { 0 };
    let (row, col, x, y) = (row as i64, col as i64, x_px as i64, y_px as i64);
    let (pr, pc, br, bc) = (pr as i64, pc as i64, br as i64, bc as i64);
    let fright = x * 7 + y * 3;
    let mr = pr + dy * 2;
    let mc = pc + dx * 2;
    let a = mode != GhostMode::Frightened || (fits_i32_check(x * 7) && fits_i32_check(y * 3) && fits_i32_check(fright)
        && fright != -0x8000_0000);
    let chase = mode == GhostMode::Chase;
    let b = !(chase && t == GhostType::Pinky) || (fits_i32_check(pr + dy * 4) && fits_i32_check(pc + dx * 4));
    let c = !(chase && t == GhostType::Inky) || (fits_i32_check(mr) && fits_i32_check(mc) && fits_i32_check(mr - br)
        && fits_i32_check(mc - bc) && fits_i32_check(mr + (mr - br)) && fits_i32_check(mc + (mc - bc)));
    let d = !(chase && t == GhostType::Clyde) || (fits_i32_check(row - pr) && fits_i32_check(col - pc));
    a && b && c && d
}

/// Whether `choose_direction`'s arithmetic stays in range (see
/// `turn_fits`).
pub fn turn_in_range(m: &TileMap, dir: i32, mode: GhostMode, in_house: bool, row: i32, col: i32, tr: i32, tc: i32) -> (r: bool)
    requires
        0 <= dir <= 3,
    ensures
        r == turn_fits(*m, dir as int, mode, in_house, row as int, col as int, tr as int, tc as int),
{
    if row == i32::MIN || row == i32::MAX || col == i32::MIN || col == i32::MAX {
        return false;
    }
    let reverse = (dir + 2) % 4;
    let fr = mode == GhostMode::Frightened;
    let mut d: i32 = 0;
    while d < 4
        invariant
            0 <= d <= 4,
            0 <= dir <= 3,
            reverse == (dir + 2) % 4,
            fr == (mode == GhostMode::Frightened),
            i32::MIN < row < i32::MAX,
            i32::MIN < col < i32::MAX,
            forall|j: int|
                0 <= j < d && #[trigger] may_turn(*m, dir as int, mode, in_house, row as int, col as int, j) ==> fits_i32(
                    row + dir_dy(j) - tr,
                ) && fits_i32(col + dir_dx(j) - tc) && turn_dist(row as int, col as int, j, tr as int, tc as int)
                    <= i64::MAX,
        decreases 4 - d,
    {
        let ddx: i32 = if d == 1 { 1 } else if d == 3 { -1 } else { 0 };
        let ddy: i32 = if d == 0 { -1 } else if d == 2 { 1 } else { 0 };
        let nr = row + ddy;
        let nc = col + ddx;
        let house = if nr >= 0 && nr < 31 && nc >= 0 && nc < 28 {
            m.tiles[nr as usize][nc as usize]
        } else {
            1
        };
        let allowed = !(d == reverse && !fr) && m.is_passable(nr, nc) && !(house == 4 && !in_house && mode
            != GhostMode::Eaten);
        assert(allowed == may_turn(*m, dir as int, mode, in_house, row as int, col as int, d as int));
        if allowed {
            let dr = nr as i64 - tr as i64;
            let dc = nc as i64 - tc as i64;
            if !fits_i32_check(dr) || !fits_i32_check(dc) {
                return false;
            }
            proof {
                assert(dr * dr >= 0 && dr * dr <= 0x4000_0000_0000_0000) by (nonlinear_arith)
                    requires
                        -0x8000_0000 <= dr <= 0x7fff_ffff,
                ;
                assert(dc * dc >= 0 && dc * dc <= 0x4000_0000_0000_0000) by (nonlinear_arith)
                    requires
                        -0x8000_0000 <= dc <= 0x7fff_ffff,
                ;
            }
            let dr2 = (dr * dr) as u128;
            let dc2 = (dc * dc) as u128;
            if dr2 + dc2 > 0x7fff_ffff_ffff_ffff {
                return false;
            }
        }
        d = d + 1;
    }
    true
}

/// Whether the hero, on entering cell (row, col) heading `dir`, takes the
/// direction `next_dir` asked for: a reversal always, another turn when the
/// cell that way is passable (columns wrap around the sides).
pub open spec fn takes_turn(m: TileMap, dir: int, next_dir: int, row: int, col: int) -> bool {
    let nr = row + dir_dy(next_dir);
    let nc = col + dir_dx(next_dir);
    next_dir == (dir + 2) % 4 || (0 <= nr < 31 && tile(m.tiles, nr, nc % 28) != 1)
}

/// The hero's turn on entering a cell (see `takes_turn`).
pub fn player_turns(m: &TileMap, dir: i32, next_dir: i32, row: i32, col: i32) -> (r: bool)
    requires
        0 <= dir <= 3,
        0 <= next_dir <= 3,
        i32::MIN < row < i32::MAX,
        i32::MIN < col < i32::MAX,
    ensures
        r == takes_turn(*m, dir as int, next_dir as int, row as int, col as int),
{
    if next_dir == (dir + 2) % 4 {
        return true;
    }
    let dx: i32 = if next_dir == 1 { 1 } else if next_dir == 3 { -1 } else { 0 };
    let dy: i32 = if next_dir == 0 { -1 } else if next_dir == 2 { 1 } else { 0 };
    m.is_passable(row + dy, col + dx)
}

/// Next step of the scatter/chase cycle: eight phases, the even ones
/// scattering; returns the new phase and the mode it calls for.
pub fn scatter_switch(phase: u8) -> (r: (u8, GhostMode))
    requires
        phase < 8,
    ensures
        r.0 == (phase + 1) % 8,
        r.1 == (if r.0 % 2 == 0 {
            GhostMode::Scatter
        } else {
            GhostMode::Chase
        }),
{
    let p = (phase + 1) % 8;
    (p, if p % 2 == 0 {
        GhostMode::Scatter
    } else {
        GhostMode::Chase
    })
}

/// A phase change reaches only ghosts that are neither frightened nor
/// eaten.
pub fn switch_mode(mode: GhostMode, new_mode: GhostMode) -> (r: GhostMode)
    ensures
        r == (if mode != GhostMode::Frightened && mode != GhostMode::Eaten {
            new_mode
        } else {
            mode
        }),
{
    if mode != GhostMode::Frightened && mode != GhostMode::Eaten {
        new_mode
    } else {
        mode
    }
}

/// When the power pellet wears off, frightened ghosts chase again.
pub fn power_end(mode: GhostMode) -> (r: GhostMode)
    ensures
        r == (if mode == GhostMode::Frightened {
            GhostMode::Chase
        } else {
            mode
        }),
{
    if mode == GhostMode::Frightened {
        GhostMode::Chase
    } else {
        mode
    }
}

#[derive(Clone, Copy, PartialEq, Eq, Structural, Debug)]
pub enum GamePhase {
    Playing,
    Dying,
    GameOver,
    LevelClear,
}

/// The score keeping of the dot-eating game. `audio_event`: 0 none, 1 dot,
/// 2 power pellet, 3 ghost eaten, 4 death, 5 level clear, 6 game over.
pub struct PacmanRules {
    pub score: u32,
    pub lives: u8,
    pub state: GamePhase,
    pub dot_count: u32,
    pub audio_event: u8,
}

impl PacmanRules {
    /// Three lives, no score, all the board's dots to eat.
    pub fn new(map: &TileMap) -> (r: Self)
        ensures
            r.score == 0 && r.lives == 3 && r.state == GamePhase::Playing && r.audio_event == 0,
            r.dot_count == dots_left(board(map.tiles)),
    {
        PacmanRules { score: 0, lives: 3, state: GamePhase::Playing, dot_count: map.remaining_dots(), audio_event: 0 }
    }

    /// The hero at (pr, pc) eats what lies there: the points go to the
    /// score, a dot or pellet sound is raised, and with no dot left the
    /// level is cleared. Returns whether a power pellet was eaten, which
    /// frightens the ghosts.
    pub fn eat_at(&mut self, map: &mut TileMap, pr: i32, pc: i32) -> (power: bool)
        requires
            old(self).score <= u32::MAX - 50,
        ensures
            ({
                let t = tile(old(map).tiles, pr as int, pc as int);
                let hit = on_board(pr, pc) && is_dot_tile(t);
                let pts: int = if hit {
                    if t == 2 {
                        10
                    } else {
                        50
                    }
                } else {
                    0
                };
                &&& power == (hit && t == 3)
                &&& final(self).score == old(self).score + pts
                &&& (if hit {
                    board(final(map).tiles) == eaten(board(old(map).tiles), pr as int, pc as int)
                } else {
                    final(map).tiles == old(map).tiles
                })
                &&& final(self).dot_count == dots_left(board(final(map).tiles))
                &&& final(self).lives == old(self).lives
                &&& final(self).state == (if final(self).dot_count == 0 {
                    GamePhase::LevelClear
                } else {
                    old(self).state
                })
                &&& final(self).audio_event == (if final(self).dot_count == 0 {
                    5
                } else if hit {
                    if t == 3 {
                        2
                    } else {
                        1
                    }
                } else {
                    old(self).audio_event
                })
            }),
    {
        let pts = map.eat_dot(pr, pc);
        let mut power = false;
        if pts > 0 {
            self.score = self.score + pts;
            if pts == 50 {
                self.audio_event = 2;
                power = true;
            } else {
                self.audio_event = 1;
            }
        }
        self.dot_count = map.remaining_dots();
        if self.dot_count == 0 {
            self.audio_event = 5;
            self.state = GamePhase::LevelClear;
        }
        power
    }

    /// A ghost in `mode` touches the hero: a frightened one is eaten for
    /// 200 points, an eaten one passes, any other costs a life and starts
    /// the dying scene. Returns the ghost's new mode.
    pub fn ghost_contact(&mut self, mode: GhostMode) -> (r: GhostMode)
        requires
            old(self).score <= u32::MAX - 200,
        ensures
            mode == GhostMode::Frightened ==> r == GhostMode::Eaten && final(self).score == old(self).score + 200
                && final(self).audio_event == 3 && final(self).state == old(self).state && final(self).lives
                == old(self).lives,
            mode == GhostMode::Eaten ==> r == mode && final(self).score == old(self).score && final(self).audio_event
                == old(self).audio_event && final(self).state == old(self).state && final(self).lives
                == old(self).lives,
            (mode == GhostMode::Chase || mode == GhostMode::Scatter) ==> r == mode && final(self).score
                == old(self).score && final(self).audio_event == 4 && final(self).state == GamePhase::Dying
                && final(self).lives == (if old(self).lives > 0 {
                old(self).lives - 1
            } else {
                0
            }),
            final(self).dot_count == old(self).dot_count,
    {
        match mode {
            GhostMode::Frightened => {
                self.score = self.score + 200;
                self.audio_event = 3;
                GhostMode::Eaten
            },
            GhostMode::Eaten => mode,
            _ => {
                self.audio_event = 4;
                self.state = GamePhase::Dying;
                self.lives = self.lives.saturating_sub(1);
                mode
            },
        }
    }

    /// The dying scene is over: with no life left the game ends, else play
    /// goes on (the page puts the hero and the ghosts back).
    pub fn death_done(&mut self)
        ensures
            old(self).lives == 0 ==> final(self).state == GamePhase::GameOver && final(self).audio_event == 6,
            old(self).lives > 0 ==> final(self).state == GamePhase::Playing && final(self).audio_event
                == old(self).audio_event,
            final(self).score == old(self).score,
            final(self).lives == old(self).lives,
            final(self).dot_count == old(self).dot_count,
    {
        if self.lives == 0 {
            self.audio_event = 6;
            self.state = GamePhase::GameOver;
        } else {
            self.state = GamePhase::Playing;
        }
    }
}

/// Arrow key to direction: 1 up, 2 right, 3 down, 4 left become 0 to 3;
/// anything else is ignored.
pub fn input_dir(dir: i32) -> (r: Option<i32>)
    ensures
        1 <= dir <= 4 ==> r == Some((dir - 1) as i32),
        !(1 <= dir <= 4) ==> r is None,
{
    if dir >= 1 && dir <= 4 {
        Some(dir - 1)
    } else {
        None
    }
}

} // verus!
