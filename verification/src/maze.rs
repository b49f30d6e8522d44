//! A 9x9 maze: a depth-first carve from the north-west corner, then a
//! braid pass that opens some dead ends into side passages.
//!
//! Each cell holds four wall bits (`N`, `E`, `S`, `W_DIR`); a set bit is a
//! wall on that side.
use vstd::prelude::*;
use crate::math::{lcg, lcg_next, lcg_out};

verus! {

pub const MAZE_W: usize = 9;

pub const MAZE_H: usize = 9;

pub const MAZE_CELLS: usize = 81;

pub const N: u8 = 1;

pub const E: u8 = 2;

pub const S: u8 = 4;

pub const W_DIR: u8 = 8;

pub struct Maze {
    pub cells: [u8; 81],
}

pub open spec fn in_maze(x: int, z: int) -> bool {
    0 <= x < 9 && 0 <= z < 9
}

pub open spec fn idx(x: int, z: int) -> int {
    z * 9 + x
}

pub open spec fn is_dir(d: u8) -> bool {
    d == N || d == E || d == S || d == W_DIR
}

/// The cell one step from (x, z) in direction `d` (north is towards z = 0).
pub open spec fn step(x: int, z: int, d: u8) -> (int, int) {
    if d == N {
        (x, z - 1)
    } else if d == S {
        (x, z + 1)
    } else if d == E {
        (x + 1, z)
    } else {
        (x - 1, z)
    }
}

pub open spec fn opposite(d: u8) -> u8 {
    if d == N {
        S
    } else if d == S {
        N
    } else if d == E {
        W_DIR
    } else {
        E
    }
}

/// Cell (x, z) has a wall on side `d`.
pub open spec fn wall_at(cells: Seq<u8>, x: int, z: int, d: u8) -> bool {
    cells[idx(x, z)] & d != 0
}

/// One can walk from (x, z) to its neighbour on side `d`.
pub open spec fn passage(cells: Seq<u8>, x: int, z: int, d: u8) -> bool {
    &&& in_maze(x, z)
    &&& is_dir(d)
    &&& in_maze(step(x, z, d).0, step(x, z, d).1)
    &&& !wall_at(cells, x, z, d)
}

/// Every cell holds only the four wall bits.
pub open spec fn cells_bounded(cells: Seq<u8>) -> bool {
    cells.len() == 81 && forall|i: int| 0 <= i < 81 ==> #[trigger] cells[i] < 16
}

/// A wall between two neighbours is seen from both sides.
pub open spec fn walls_consistent(cells: Seq<u8>) -> bool {
    forall|x: int, z: int, d: u8|
        #![trigger wall_at(cells, x, z, d)]
        in_maze(x, z) && is_dir(d) && in_maze(step(x, z, d).0, step(x, z, d).1) ==> wall_at(
            cells,
            x,
            z,
            d,
        ) == wall_at(cells, step(x, z, d).0, step(x, z, d).1, opposite(d))
}

/// The outer border is closed.
pub open spec fn border_closed(cells: Seq<u8>) -> bool {
    forall|x: int, z: int, d: u8|
        #![trigger wall_at(cells, x, z, d)]
        in_maze(x, z) && is_dir(d) && !in_maze(step(x, z, d).0, step(x, z, d).1) ==> wall_at(
            cells,
            x,
            z,
            d,
        )
}

/// `par` and `depth` describe a tree of open passages over all cells, rooted
/// at (0, 0): every other cell has a passage on side `par` to a cell one
/// level closer to the root.
pub open spec fn spanning_tree(cells: Seq<u8>, depth: Seq<nat>, par: Seq<u8>) -> bool {
    &&& depth.len() == 81
    &&& par.len() == 81
    &&& forall|x: int, z: int|
        #![trigger par[idx(x, z)]]
        in_maze(x, z) && !(x == 0 && z == 0) ==> {
            let p = step(x, z, par[idx(x, z)]);
            &&& passage(cells, x, z, par[idx(x, z)])
            &&& depth[idx(p.0, p.1)] + 1 == depth[idx(x, z)]
        }
}

/// Every cell can be reached from (0, 0) through open passages.
pub open spec fn connected(cells: Seq<u8>) -> bool {
    exists|depth: Seq<nat>, par: Seq<u8>| spanning_tree(cells, depth, par)
}

/// What every maze this module builds satisfies.
pub open spec fn well_formed(cells: Seq<u8>) -> bool {
    &&& cells_bounded(cells)
    &&& walls_consistent(cells)
    &&& border_closed(cells)
    &&& connected(cells)
}

pub open spec fn wall_bit(c: u8, d: u8) -> nat {
    if c & d != 0 {
        1
    } else {
        0
    }
}

/// How many of the four sides of a cell value are walled.
pub open spec fn num_walls(c: u8) -> nat {
    wall_bit(c, N) + wall_bit(c, E) + wall_bit(c, S) + wall_bit(c, W_DIR)
}

proof fn lemma_bits(c: u8, d: u8, e: u8)
    requires
        is_dir(d),
        is_dir(e),
    ensures
        ((c & !d) & e != 0) == (if d == e {
            false
        } else {
            c & e != 0
        }),
        c < 16 ==> (c & !d) < 16,
        15u8 & e != 0,
{
    assert(((c & !d) & e != 0) == (if d == e {
        false
    } else {
        c & e != 0
    }) && (c < 16 ==> (c & !d) < 16) && 15u8 & e != 0) by (bit_vector)
        requires
            d == 1u8 || d == 2u8 || d == 4u8 || d == 8u8,
            e == 1u8 || e == 2u8 || e == 4u8 || e == 8u8,
    ;
}

proof fn lemma_step_back(x: int, z: int, d: u8)
    requires
        is_dir(d),
    ensures
        step(step(x, z, d).0, step(x, z, d).1, opposite(d)) == (x, z),
        is_dir(opposite(d)),
        opposite(opposite(d)) == d,
{
}

/// The cells after removing the wall on side `d` of (x, z) and the matching
/// wall of its neighbour.
pub open spec fn open_cells(cells: Seq<u8>, x: int, z: int, d: u8) -> Seq<u8> {
    let (nx, nz) = step(x, z, d);
    cells.update(idx(x, z), cells[idx(x, z)] & !d).update(idx(nx, nz), cells[idx(nx, nz)] & !opposite(d))
}

/// The sides of a dead end with value `w` at (cx, cz) that the braid pass
/// may open: walled sides towards a cell of the grid, in the order north,
/// south, east, west.
pub open spec fn braid_cands(w: u8, cx: int, cz: int) -> Seq<u8> {
    let s0: Seq<u8> = if cz > 0 && w & N != 0 { seq![N] } else { Seq::empty() };
    let s1 = if cz + 1 < 9 && w & S != 0 { s0.push(S) } else { s0 };
    let s2 = if cx + 1 < 9 && w & E != 0 { s1.push(E) } else { s1 };
    if cx > 0 && w & W_DIR != 0 { s2.push(W_DIR) } else { s2 }
}

/// The braid pass on cell (cx, cz): the cells and generator state after it.
/// A cell with three walls draws a roll; below 6 in 10 it draws again to
/// pick one of its candidate sides, which is opened.
pub open spec fn braid_cell(cells: Seq<u8>, rng: u64, cx: int, cz: int) -> (Seq<u8>, u64) {
    let w = cells[idx(cx, cz)];
    if num_walls(w) != 3 {
        (cells, rng)
    } else {
        let s1 = lcg_next(rng);
        if lcg_out(s1) % 10 >= 6 {
            (cells, s1)
        } else {
            let cands = braid_cands(w, cx, cz);
            let s2 = lcg_next(s1);
            let m: nat = if cands.len() > 1 { cands.len() } else { 1 };
            let k = lcg_out(s2) % m;
            if k < cands.len() {
                (open_cells(cells, cx, cz, cands[k as int]), s2)
            } else {
                (cells, s2)
            }
        }
    }
}

/// The braid pass over the first `n` cells in row-major order.
pub open spec fn braid_upto(cells: Seq<u8>, rng: u64, n: nat) -> (Seq<u8>, u64)
    decreases n,
{
    if n == 0 {
        (cells, rng)
    } else {
        let p = braid_upto(cells, rng, (n - 1) as nat);
        braid_cell(p.0, p.1, (n - 1) % 9, (n - 1) / 9)
    }
}

/// Removes the wall on side `d` of (x, z) and the matching wall of its
/// neighbour.
fn open_wall(cells: &mut [u8; 81], x: usize, z: usize, d: u8)
    requires
        in_maze(x as int, z as int),
        is_dir(d),
        in_maze(step(x as int, z as int, d).0, step(x as int, z as int, d).1),
        cells_bounded(old(cells)@),
        walls_consistent(old(cells)@),
        border_closed(old(cells)@),
    ensures
        cells_bounded(final(cells)@),
        walls_consistent(final(cells)@),
        border_closed(final(cells)@),
        final(cells)@ == open_cells(old(cells)@, x as int, z as int, d),
        forall|x2: int, z2: int, d2: u8|
            #![trigger wall_at(final(cells)@, x2, z2, d2)]
            in_maze(x2, z2) && is_dir(d2) ==> wall_at(final(cells)@, x2, z2, d2) == (wall_at(
                old(cells)@,
                x2,
                z2,
                d2,
            ) && !(x2 == x && z2 == z && d2 == d) && !((x2, z2) == step(x as int, z as int, d)
                && d2 == opposite(d))),
{
    let ghost c0 = cells@;
    let (nx, nz): (usize, usize) = if d == N {
        (x, z - 1)
    } else if d == S {
        (x, z + 1)
    } else if d == E {
        (x + 1, z)
    } else {
        (x - 1, z)
    };
    let db: u8 = if d == N {
        S
    } else if d == S {
        N
    } else if d == E {
        W_DIR
    } else {
        E
    };
    let i = z * MAZE_W + x;
    let j = nz * MAZE_W + nx;
    cells[i] = cells[i] & !d;
    cells[j] = cells[j] & !db;
    proof {
        let c1 = cells@;
        lemma_step_back(x as int, z as int, d);
        assert(i != j);
        assert forall|x2: int, z2: int, d2: u8|
            in_maze(x2, z2) && is_dir(d2) implies #[trigger] wall_at(c1, x2, z2, d2) == (
            wall_at(c0, x2, z2, d2) && !(x2 == x && z2 == z && d2 == d) && !((x2, z2) == step(
                x as int,
                z as int,
                d,
            ) && d2 == opposite(d))) by {
            let k = idx(x2, z2);
            if k == i {
                assert(x2 == x && z2 == z);
                lemma_bits(c0[i as int], d, d2);
            } else if k == j {
                assert(x2 == nx && z2 == nz);
                lemma_bits(c0[j as int], db, d2);
            } else {
                assert(c1[k] == c0[k]);
            }
        }
        assert forall|q: int| 0 <= q < 81 implies #[trigger] c1[q] < 16 by {
            if q == i {
                lemma_bits(c0[i as int], d, d);
            } else if q == j {
                lemma_bits(c0[j as int], db, db);
            }
        }
        assert forall|x2: int, z2: int, d2: u8|
            in_maze(x2, z2) && is_dir(d2) && in_maze(step(x2, z2, d2).0, step(x2, z2, d2).1)
                implies #[trigger] wall_at(c1, x2, z2, d2) == wall_at(
            c1,
            step(x2, z2, d2).0,
            step(x2, z2, d2).1,
            opposite(d2),
        ) by {
            lemma_step_back(x2, z2, d2);
            assert(wall_at(c0, x2, z2, d2) == wall_at(
                c0,
                step(x2, z2, d2).0,
                step(x2, z2, d2).1,
                opposite(d2),
            ));
        }
        assert forall|x2: int, z2: int, d2: u8|
            in_maze(x2, z2) && is_dir(d2) && !in_maze(
                step(x2, z2, d2).0,
                step(x2, z2, d2).1,
            ) implies #[trigger] wall_at(c1, x2, z2, d2) by {
            assert(wall_at(c0, x2, z2, d2));
        }
    }
}

/// How many sides of `c` are walled.
fn wall_count(c: u8) -> (r: usize)
    ensures
        r == num_walls(c),
{
    let mut n: usize = 0;
    if c & N != 0 {
        n = n + 1;
    }
    if c & E != 0 {
        n = n + 1;
    }
    if c & S != 0 {
        n = n + 1;
    }
    if c & W_DIR != 0 {
        n = n + 1;
    }
    n
}

pub open spec fn count_false(s: Seq<bool>, n: int) -> nat
    decreases n,
{
    if n <= 0 {
        0
    } else {
        count_false(s, n - 1) + if s[n - 1] {
            0nat
        } else {
            1nat
        }
    }
}

pub(crate) proof fn lemma_count_false_set(s: Seq<bool>, i: int, n: int)
    requires
        0 <= i < s.len(),
        !s[i],
        0 <= n <= s.len(),
    ensures
        count_false(s.update(i, true), n) + (if i < n {
            1nat
        } else {
            0nat
        }) == count_false(s, n),
    decreases n,
{
    if n > 0 {
        lemma_count_false_set(s, i, n - 1);
    }
}

/// A candidate move of the carve: the neighbour of (cx, cz) on side `e.2`,
/// not yet visited, with `e.3` the side facing back.
pub open spec fn carve_candidate(vis: Seq<bool>, cx: int, cz: int, e: (usize, usize, u8, u8)) -> bool {
    &&& is_dir(e.2)
    &&& e.3 == opposite(e.2)
    &&& in_maze(step(cx, cz, e.2).0, step(cx, cz, e.2).1)
    &&& (e.0 as int, e.1 as int) == step(cx, cz, e.2)
    &&& !vis[idx(e.0 as int, e.1 as int)]
}

/// A visited cell off the stack has no unvisited neighbour.
pub open spec fn closed_off(vis: Seq<bool>, stk: Seq<(usize, usize)>, x: int, z: int, d: u8) -> bool {
    (in_maze(x, z) && vis[idx(x, z)] && !stk.contains((x as usize, z as usize)) && is_dir(d)
        && in_maze(step(x, z, d).0, step(x, z, d).1)) ==> vis[idx(step(x, z, d).0, step(x, z, d).1)]
}

/// The tree property restricted to the visited cells.
pub open spec fn tree_so_far(cells: Seq<u8>, vis: Seq<bool>, depth: Seq<nat>, par: Seq<u8>) -> bool {
    &&& depth.len() == 81
    &&& par.len() == 81
    &&& forall|x: int, z: int|
        #![trigger par[idx(x, z)]]
        in_maze(x, z) && !(x == 0 && z == 0) && vis[idx(x, z)] ==> {
            let p = step(x, z, par[idx(x, z)]);
            &&& passage(cells, x, z, par[idx(x, z)])
            &&& vis[idx(p.0, p.1)]
            &&& depth[idx(p.0, p.1)] + 1 == depth[idx(x, z)]
        }
}

proof fn lemma_visited_cell(vis: Seq<bool>, x: int, z: int)
    requires
        vis.len() == 81,
        vis[0],
        in_maze(x, z),
        forall|x: int, z: int, d: u8|
            #![trigger closed_off(vis, Seq::<(usize, usize)>::empty(), x, z, d)]
            closed_off(vis, Seq::<(usize, usize)>::empty(), x, z, d),
    ensures
        vis[idx(x, z)],
    decreases x + z,
{
    let e = Seq::<(usize, usize)>::empty();
    if z > 0 {
        lemma_visited_cell(vis, x, z - 1);
        assert(closed_off(vis, e, x, z - 1, S));
    } else if x > 0 {
        lemma_visited_cell(vis, x - 1, z);
        assert(closed_off(vis, e, x - 1, z, E));
    }
}

proof fn lemma_all_visited(vis: Seq<bool>)
    requires
        vis.len() == 81,
        vis[0],
        forall|x: int, z: int, d: u8|
            #![trigger closed_off(vis, Seq::<(usize, usize)>::empty(), x, z, d)]
            closed_off(vis, Seq::<(usize, usize)>::empty(), x, z, d),
    ensures
        forall|i: int| 0 <= i < 81 ==> #[trigger] vis[i],
{
    assert forall|i: int| 0 <= i < 81 implies #[trigger] vis[i] by {
        lemma_visited_cell(vis, i % 9, i / 9);
    }
}

/// The cell reached from (cx, cz) by side `dir`, as `Maze::can_move` finds
/// it: nothing through a wall or off the grid; any value of `dir` other
/// than `N`, `S` and `E` counts as west.
pub open spec fn move_target(cells: Seq<u8>, cx: usize, cz: usize, dir: u8) -> Option<(usize, usize)> {
    if cells[cz * 9 + cx] & dir != 0 {
        None
    } else if dir == N {
        if cz > 0 { Some((cx, (cz - 1) as usize)) } else { None }
    } else if dir == S {
        if cz + 1 < 9 { Some((cx, (cz + 1) as usize)) } else { None }
    } else if dir == E {
        if cx + 1 < 9 { Some(((cx + 1) as usize, cz)) } else { None }
    } else {
        if cx > 0 { Some(((cx - 1) as usize, cz)) } else { None }
    }
}

proof fn lemma_fewer_walls_keep_tree(c0: Seq<u8>, c1: Seq<u8>, depth: Seq<nat>, par: Seq<u8>)
    requires
        spanning_tree(c0, depth, par),
        forall|x: int, z: int, d: u8|
            #![trigger wall_at(c1, x, z, d)]
            in_maze(x, z) && is_dir(d) && wall_at(c1, x, z, d) ==> wall_at(c0, x, z, d),
    ensures
        spanning_tree(c1, depth, par),
{
    assert forall|x: int, z: int|
        in_maze(x, z) && !(x == 0 && z == 0) implies {
        let p = step(x, z, #[trigger] par[idx(x, z)]);
        &&& passage(c1, x, z, par[idx(x, z)])
        &&& depth[idx(p.0, p.1)] + 1 == depth[idx(x, z)]
    } by {
        assert(passage(c0, x, z, par[idx(x, z)]));
        if wall_at(c1, x, z, par[idx(x, z)]) {
            assert(wall_at(c0, x, z, par[idx(x, z)]));
        }
    }
}

proof fn lemma_pop_closed(vis: Seq<bool>, old_stk: Seq<(usize, usize)>, cx: usize, cz: usize)
    requires
        old_stk.len() > 0,
        old_stk[old_stk.len() - 1] == (cx, cz),
        forall|a: int, b: int|
            0 <= a < b < old_stk.len() ==> #[trigger] old_stk[a] != #[trigger] old_stk[b],
        forall|x: int, z: int, d: u8|
            #![trigger closed_off(vis, old_stk, x, z, d)]
            closed_off(vis, old_stk, x, z, d),
        forall|d: u8|
            is_dir(d) && in_maze(step(cx as int, cz as int, d).0, step(cx as int, cz as int, d).1)
                ==> #[trigger] vis[idx(
                step(cx as int, cz as int, d).0,
                step(cx as int, cz as int, d).1,
            )],
    ensures
        forall|x: int, z: int, d: u8|
            #![trigger closed_off(vis, old_stk.drop_last(), x, z, d)]
            closed_off(vis, old_stk.drop_last(), x, z, d),
{
    let stk = old_stk.drop_last();
    let c = (cx, cz);
    assert forall|a: int| 0 <= a < stk.len() implies old_stk[a] != c by {
        assert(old_stk[a] != old_stk[old_stk.len() - 1]);
    }
    assert(!stk.contains(c));
    assert forall|x: int, z: int, d: u8|
        #![trigger closed_off(vis, stk, x, z, d)]
        closed_off(vis, stk, x, z, d) by {
        assert(closed_off(vis, old_stk, x, z, d));
        if in_maze(x, z) && (x as usize, z as usize) != c && old_stk.contains(
            (x as usize, z as usize),
        ) {
            let k = choose|k: int| 0 <= k < old_stk.len() && old_stk[k] == (x as usize, z as usize);
            assert(k < stk.len());
            assert(stk[k] == (x as usize, z as usize));
        }
        if in_maze(x, z) && (x as usize, z as usize) == c {
            assert(x == cx && z == cz);
        }
    }
}

proof fn lemma_push_stack(vis0: Seq<bool>, stk0: Seq<(usize, usize)>, nx: usize, nz: usize)
    requires
        vis0.len() == 81,
        in_maze(nx as int, nz as int),
        !vis0[idx(nx as int, nz as int)],
        forall|k: int|
            0 <= k < stk0.len() ==> in_maze(#[trigger] stk0[k].0 as int, stk0[k].1 as int)
                && vis0[idx(stk0[k].0 as int, stk0[k].1 as int)],
        forall|a: int, b: int| 0 <= a < b < stk0.len() ==> #[trigger] stk0[a] != #[trigger] stk0[b],
        forall|x: int, z: int, d: u8|
            #![trigger closed_off(vis0, stk0, x, z, d)]
            closed_off(vis0, stk0, x, z, d),
    ensures
        ({
            let vis = vis0.update(idx(nx as int, nz as int), true);
            let stk = stk0.push((nx, nz));
            &&& forall|k: int|
                0 <= k < stk.len() ==> in_maze(#[trigger] stk[k].0 as int, stk[k].1 as int)
                    && vis[idx(stk[k].0 as int, stk[k].1 as int)]
            &&& forall|a: int, b: int| 0 <= a < b < stk.len() ==> #[trigger] stk[a] != #[trigger] stk[b]
            &&& forall|x: int, z: int, d: u8|
                #![trigger closed_off(vis, stk, x, z, d)]
                closed_off(vis, stk, x, z, d)
        }),
{
    let ni = idx(nx as int, nz as int);
    let vis = vis0.update(ni, true);
    let stk = stk0.push((nx, nz));
    assert forall|k: int| 0 <= k < stk.len() implies in_maze(#[trigger] stk[k].0 as int, stk[k].1 as int)
        && vis[idx(stk[k].0 as int, stk[k].1 as int)] by {
        if k < stk0.len() {
            assert(stk[k] == stk0[k]);
        }
    }
    assert forall|a: int, b: int| 0 <= a < b < stk.len() implies #[trigger] stk[a] != #[trigger] stk[b] by {
        if b == stk0.len() {
            assert(stk[a] == stk0[a]);
            assert(vis0[idx(stk0[a].0 as int, stk0[a].1 as int)]);
        } else {
            assert(stk0[a] != stk0[b]);
        }
    }
    assert forall|x: int, z: int, d: u8|
        #![trigger closed_off(vis, stk, x, z, d)]
        closed_off(vis, stk, x, z, d) by {
        assert(closed_off(vis0, stk0, x, z, d));
        if in_maze(x, z) && stk0.contains((x as usize, z as usize)) {
            let k = choose|k: int| 0 <= k < stk0.len() && stk0[k] == (x as usize, z as usize);
            assert(stk[k] == (x as usize, z as usize));
        }
        if in_maze(x, z) && idx(x, z) == ni {
            assert(x == nx && z == nz);
            assert(stk[stk0.len() as int] == (nx, nz));
        }
    }
}

proof fn lemma_push_tree(
    cells0: Seq<u8>,
    cells: Seq<u8>,
    vis0: Seq<bool>,
    depth: Seq<nat>,
    par: Seq<u8>,
    cx: usize,
    cz: usize,
    nx: usize,
    nz: usize,
    d: u8,
)
    requires
        vis0.len() == 81,
        in_maze(cx as int, cz as int),
        vis0[idx(cx as int, cz as int)],
        is_dir(d),
        (nx as int, nz as int) == step(cx as int, cz as int, d),
        in_maze(nx as int, nz as int),
        !vis0[idx(nx as int, nz as int)],
        tree_so_far(cells0, vis0, depth, par),
        forall|x2: int, z2: int, d2: u8|
            #![trigger wall_at(cells, x2, z2, d2)]
            in_maze(x2, z2) && is_dir(d2) ==> wall_at(cells, x2, z2, d2) == (wall_at(
                cells0,
                x2,
                z2,
                d2,
            ) && !(x2 == cx && z2 == cz && d2 == d) && !((x2, z2) == step(cx as int, cz as int, d)
                && d2 == opposite(d))),
    ensures
        tree_so_far(
            cells,
            vis0.update(idx(nx as int, nz as int), true),
            depth.update(idx(nx as int, nz as int), depth[idx(cx as int, cz as int)] + 1),
            par.update(idx(nx as int, nz as int), opposite(d)),
        ),
{
    let ni = idx(nx as int, nz as int);
    let vis = vis0.update(ni, true);
    let depth1 = depth.update(ni, depth[idx(cx as int, cz as int)] + 1);
    let par1 = par.update(ni, opposite(d));
    lemma_step_back(cx as int, cz as int, d);
    assert forall|x: int, z: int|
        in_maze(x, z) && !(x == 0 && z == 0) && vis[idx(x, z)] implies {
        let p = step(x, z, #[trigger] par1[idx(x, z)]);
        &&& passage(cells, x, z, par1[idx(x, z)])
        &&& vis[idx(p.0, p.1)]
        &&& depth1[idx(p.0, p.1)] + 1 == depth1[idx(x, z)]
    } by {
        let pd = par1[idx(x, z)];
        if idx(x, z) == ni {
            assert(x == nx && z == nz);
            assert(!wall_at(cells, x, z, pd));
        } else {
            assert(par1[idx(x, z)] == par[idx(x, z)]);
            assert(vis0[idx(x, z)]);
            let p = step(x, z, pd);
            assert(passage(cells0, x, z, pd));
            assert(vis0[idx(p.0, p.1)]);
            assert(idx(p.0, p.1) != ni);
            if wall_at(cells, x, z, pd) {
                assert(wall_at(cells0, x, z, pd));
            }
        }
    }
}

/// The unvisited neighbours of (cx, cz) the carve may move to, in the order
/// north, south, west, east.
pub open spec fn carve_dirs(vis: Seq<bool>, cx: int, cz: int) -> Seq<u8> {
    let s0: Seq<u8> = if cz > 0 && !vis[idx(cx, cz - 1)] { seq![N] } else { Seq::empty() };
    let s1 = if cz + 1 < 9 && !vis[idx(cx, cz + 1)] { s0.push(S) } else { s0 };
    let s2 = if cx > 0 && !vis[idx(cx - 1, cz)] { s1.push(W_DIR) } else { s1 };
    if cx + 1 < 9 && !vis[idx(cx + 1, cz)] { s2.push(E) } else { s2 }
}

/// One step of the depth-first carve on (cells, visited, stack, generator
/// state): from the cell on top of the stack, a dead end is popped;
/// otherwise one unvisited neighbour is drawn, the wall to it opened, and
/// it is visited and pushed.
pub open spec fn carve_step(cells: Seq<u8>, vis: Seq<bool>, stk: Seq<(usize, usize)>, rng: u64) -> (
    Seq<u8>,
    Seq<bool>,
    Seq<(usize, usize)>,
    u64,
) {
    let cx = stk.last().0 as int;
    let cz = stk.last().1 as int;
    let ds = carve_dirs(vis, cx, cz);
    if ds.len() == 0 {
        (cells, vis, stk.drop_last(), rng)
    } else {
        let r1 = lcg_next(rng);
        let d = ds[(lcg_out(r1) % ds.len()) as int];
        let n = step(cx, cz, d);
        (open_cells(cells, cx, cz, d), vis.update(idx(n.0, n.1), true), stk.push((n.0 as usize, n.1 as usize)), r1)
    }
}

/// At most `fuel` carve steps, stopping once the stack is empty.
pub open spec fn carve_run(cells: Seq<u8>, vis: Seq<bool>, stk: Seq<(usize, usize)>, rng: u64, fuel: nat) -> (
    Seq<u8>,
    Seq<bool>,
    Seq<(usize, usize)>,
    u64,
)
    decreases fuel,
{
    if fuel == 0 || stk.len() == 0 {
        (cells, vis, stk, rng)
    } else {
        let t = carve_step(cells, vis, stk, rng);
        carve_run(t.0, t.1, t.2, t.3, (fuel - 1) as nat)
    }
}

/// Every cell walled on all four sides.
pub open spec fn carve_start_cells() -> Seq<u8> {
    Seq::new(81, |i: int| 15u8)
}

/// Only the north-west corner visited.
pub open spec fn carve_start_vis() -> Seq<bool> {
    Seq::new(81, |i: int| i == 0)
}

/// The maze of `seed`: the generator starts at `seed | 1`; the carve runs
/// from the north-west corner until its stack is empty (it takes at most
/// 161 steps: each visits a cell or pops one), then the braid pass runs on
/// with the generator where the carve left it.
pub open spec fn carved_maze(seed: u64) -> Seq<u8> {
    let c = carve_run(carve_start_cells(), carve_start_vis(), seq![(0usize, 0usize)], seed | 1, 161);
    braid_upto(c.0, c.3, 81).0
}

proof fn lemma_count_false_start(n: int)
    requires
        1 <= n <= 81,
    ensures
        count_false(carve_start_vis(), n) == n - 1,
    decreases n,
{
    assert(carve_start_vis()[n - 1] == (n - 1 == 0));
    if n > 1 {
        lemma_count_false_start(n - 1);
    } else {
        assert(count_false(carve_start_vis(), 0) == 0);
    }
}

/// Seeds `2k` and `2k + 1` give the same maze.
pub proof fn lemma_seed_pairs_agree(k: u64)
    requires
        k < 0x8000_0000_0000_0000,
    ensures
        carved_maze((2 * k) as u64) == carved_maze((2 * k + 1) as u64),
{
    let a = (2 * k) as u64;
    let b = (2 * k + 1) as u64;
    assert(a | 1 == b | 1) by (bit_vector)
        requires
            k < 0x8000_0000_0000_0000,
            a == 2 * k,
            b == 2 * k + 1,
    ;
}

impl Maze {
    /// Builds the maze for `seed`: a depth-first carve from (0, 0) choosing
    /// each branch with `lcg`, then about six in ten dead ends opened into a
    /// neighbouring passage.
    #[verifier::rlimit(80)]
    pub fn new(seed: u64) -> (r: Self)
        ensures
            well_formed(r.cells@),
            r.cells@ == carved_maze(seed),
    {
        let mut rng: u64 = seed | 1;
        let mut cells: [u8; 81] = [15u8; 81];
        let mut vis: [bool; 81] = [false; 81];
        let mut stk: Vec<(usize, usize)> = Vec::new();
        stk.push((0, 0));
        vis[0] = true;
        let ghost mut depth: Seq<nat> = Seq::new(81, |i: int| 0nat);
        let ghost mut par: Seq<u8> = Seq::new(81, |i: int| N);
        let ghost mut steps: nat = 0;
        let ghost target = carve_run(carve_start_cells(), carve_start_vis(), seq![(0usize, 0usize)], seed | 1, 161);
        proof {
            assert(cells@ =~= carve_start_cells());
            assert(vis@ =~= carve_start_vis());
            assert(stk@ =~= seq![(0usize, 0usize)]);
            lemma_count_false_start(81);
            assert forall|q: int| 0 <= q < 81 implies #[trigger] cells@[q] < 16 by {}
            assert forall|x: int, z: int, d: u8|
                in_maze(x, z) && is_dir(d) implies #[trigger] wall_at(cells@, x, z, d) by {
                lemma_bits(0, d, d);
            }
            assert(stk@[0] == (0usize, 0usize));
            assert forall|x: int, z: int, d: u8|
                #![trigger closed_off(vis@, stk@, x, z, d)]
                closed_off(vis@, stk@, x, z, d) by {
                if in_maze(x, z) && vis@[idx(x, z)] {
                    assert(idx(x, z) == 0);
                    assert(stk@.contains((x as usize, z as usize)));
                }
            }
        }
        while stk.len() > 0
            invariant
                cells_bounded(cells@),
                walls_consistent(cells@),
                border_closed(cells@),
                vis@.len() == 81,
                vis@[0],
                forall|k: int|
                    0 <= k < stk@.len() ==> in_maze(#[trigger] stk@[k].0 as int, stk@[k].1 as int)
                        && vis@[idx(stk@[k].0 as int, stk@[k].1 as int)],
                forall|a: int, b: int|
                    0 <= a < b < stk@.len() ==> #[trigger] stk@[a] != #[trigger] stk@[b],
                forall|x: int, z: int, d: u8|
                    #![trigger closed_off(vis@, stk@, x, z, d)]
                    closed_off(vis@, stk@, x, z, d),
                tree_so_far(cells@, vis@, depth, par),
                2 * count_false(vis@, 81) + stk@.len() + steps <= 161,
                carve_run(cells@, vis@, stk@, rng, (161 - steps) as nat) == target,
            decreases 2 * count_false(vis@, 81) + stk@.len(),
        {
            let (cx, cz) = stk[stk.len() - 1];
            let ghost c = (cx, cz);
            let ghost here = (cells@, vis@, stk@, rng);
            let ghost next = carve_step(cells@, vis@, stk@, rng);
            assert(carve_run(cells@, vis@, stk@, rng, (161 - steps) as nat) == carve_run(
                next.0,
                next.1,
                next.2,
                next.3,
                (161 - steps - 1) as nat,
            ));
            let mut nb: Vec<(usize, usize, u8, u8)> = Vec::new();
            let ghost mut ds: Seq<u8> = Seq::empty();
            if cz > 0 && !vis[(cz - 1) * MAZE_W + cx] {
                nb.push((cx, cz - 1, N, S));
                proof { ds = ds.push(N); }
            }
            if cz + 1 < MAZE_H && !vis[(cz + 1) * MAZE_W + cx] {
                nb.push((cx, cz + 1, S, N));
                proof { ds = ds.push(S); }
            }
            if cx > 0 && !vis[cz * MAZE_W + cx - 1] {
                nb.push((cx - 1, cz, W_DIR, E));
                proof { ds = ds.push(W_DIR); }
            }
            if cx + 1 < MAZE_W && !vis[cz * MAZE_W + cx + 1] {
                nb.push((cx + 1, cz, E, W_DIR));
                proof { ds = ds.push(E); }
            }
            assert(ds == carve_dirs(vis@, cx as int, cz as int));
            assert(ds.len() == nb@.len());
            assert forall|k: int| 0 <= k < nb@.len() implies #[trigger] nb@[k].2 == ds[k] by {}
            assert forall|k: int| 0 <= k < nb@.len() implies carve_candidate(
                vis@,
                cx as int,
                cz as int,
                #[trigger] nb@[k],
            ) by {}
            if nb.len() == 0 {
                let ghost old_stk = stk@;
                proof {
                    assert forall|d: u8|
                        is_dir(d) && in_maze(
                            step(cx as int, cz as int, d).0,
                            step(cx as int, cz as int, d).1,
                        ) implies #[trigger] vis@[idx(
                        step(cx as int, cz as int, d).0,
                        step(cx as int, cz as int, d).1,
                    )] by {}
                }
                stk.pop();
                proof {
                    assert(stk@ =~= old_stk.drop_last());
                    lemma_pop_closed(vis@, old_stk, cx, cz);
                    assert((cells@, vis@, stk@, rng) == next);
                    steps = steps + 1;
                }
            } else {
                let r = lcg(&mut rng);
                let (nx, nz, d, db) = nb[r % nb.len()];
                proof {
                    assert(carve_candidate(vis@, cx as int, cz as int, nb@[(r % nb.len()) as int]));
                    lemma_step_back(cx as int, cz as int, d);
                }
                let ghost cells0 = cells@;
                let ghost vis0 = vis@;
                let ghost stk0 = stk@;
                open_wall(&mut cells, cx, cz, d);
                vis[nz * MAZE_W + nx] = true;
                stk.push((nx, nz));
                proof {
                    let ni = idx(nx as int, nz as int);
                    lemma_count_false_set(vis0, ni, 81);
                    lemma_push_tree(cells0, cells@, vis0, depth, par, cx, cz, nx, nz, d);
                    par = par.update(ni, db);
                    depth = depth.update(ni, depth[idx(cx as int, cz as int)] + 1);
                    lemma_push_stack(vis0, stk0, nx, nz);
                    assert(d == ds[(r as int) % (nb@.len() as int)]);
                    assert(cells@ == next.0);
                    assert(vis@ == next.1);
                    assert(stk@ == next.2);
                    steps = steps + 1;
                }
            }
        }
        proof {
            assert(stk@ =~= Seq::<(usize, usize)>::empty());
            lemma_all_visited(vis@);
            assert(carve_run(cells@, vis@, stk@, rng, (161 - steps) as nat) == (cells@, vis@, stk@, rng));
        }
        Self::braid(&mut cells, &mut rng, Ghost(depth), Ghost(par));
        Maze { cells }
    }

    /// Opens about six in ten dead ends (cells with three walls) towards a
    /// walled neighbour inside the grid; walls are only ever removed.
    #[verifier::spinoff_prover]
    #[verifier::rlimit(40)]
    fn braid(cells: &mut [u8; 81], rng: &mut u64, Ghost(depth): Ghost<Seq<nat>>, Ghost(par): Ghost<Seq<u8>>)
        requires
            cells_bounded(old(cells)@),
            walls_consistent(old(cells)@),
            border_closed(old(cells)@),
            spanning_tree(old(cells)@, depth, par),
        ensures
            cells_bounded(final(cells)@),
            walls_consistent(final(cells)@),
            border_closed(final(cells)@),
            spanning_tree(final(cells)@, depth, par),
            final(cells)@ == braid_upto(old(cells)@, *old(rng), 81).0,
            *final(rng) == braid_upto(old(cells)@, *old(rng), 81).1,
    {
        let ghost c_init = cells@;
        let ghost r_init = *rng;
        for cz in 0..MAZE_H
            invariant
                cells_bounded(cells@),
                walls_consistent(cells@),
                border_closed(cells@),
                spanning_tree(cells@, depth, par),
                cells@ == braid_upto(c_init, r_init, (cz * 9) as nat).0,
                *rng == braid_upto(c_init, r_init, (cz * 9) as nat).1,
        {
            for cx in 0..MAZE_W
                invariant
                    0 <= cz < 9,
                    cells_bounded(cells@),
                    walls_consistent(cells@),
                    border_closed(cells@),
                    spanning_tree(cells@, depth, par),
                    cells@ == braid_upto(c_init, r_init, (cz * 9 + cx) as nat).0,
                    *rng == braid_upto(c_init, r_init, (cz * 9 + cx) as nat).1,
            {
                let i = cz * MAZE_W + cx;
                let ghost n: nat = (cz * 9 + cx) as nat;
                let ghost c0 = cells@;
                let ghost r0 = *rng;
                assert(n % 9 == cx && n / 9 == cz) by (nonlinear_arith)
                    requires
                        n == cz * 9 + cx,
                        0 <= cx < 9,
                        0 <= cz < 9,
                ;
                assert(braid_upto(c_init, r_init, n + 1) == braid_cell(c0, r0, cx as int, cz as int));
                if wall_count(cells[i]) == 3 {
                    let roll = lcg(rng);
                    if roll % 10 < 6 {
                        let w = cells[i];
                        let mut cands: Vec<(u8, u8, usize, usize)> = Vec::new();
                        let ghost mut ds: Seq<u8> = Seq::empty();
                        if cz > 0 && w & N != 0 {
                            cands.push((N, S, cx, cz - 1));
                            proof { ds = ds.push(N); }
                        }
                        if cz + 1 < MAZE_H && w & S != 0 {
                            cands.push((S, N, cx, cz + 1));
                            proof { ds = ds.push(S); }
                        }
                        if cx + 1 < MAZE_W && w & E != 0 {
                            cands.push((E, W_DIR, cx + 1, cz));
                            proof { ds = ds.push(E); }
                        }
                        if cx > 0 && w & W_DIR != 0 {
                            cands.push((W_DIR, E, cx - 1, cz));
                            proof { ds = ds.push(W_DIR); }
                        }
                        assert(ds == braid_cands(w, cx as int, cz as int));
                        assert(ds.len() == cands@.len());
                        assert forall|k: int| 0 <= k < cands@.len() implies #[trigger] cands@[k].0 == ds[k] by {}
                        assert forall|k: int| 0 <= k < cands@.len() implies is_dir(
                            #[trigger] cands@[k].0,
                        ) && in_maze(
                            step(cx as int, cz as int, cands@[k].0).0,
                            step(cx as int, cz as int, cands@[k].0).1,
                        ) by {}
                        let r = lcg(rng);
                        let m: usize = if cands.len() > 1 {
                            cands.len()
                        } else {
                            1
                        };
                        let k = r % m;
                        if k < cands.len() {
                            let (d, _db, _nx, _nz) = cands[k];
                            let ghost c0 = cells@;
                            open_wall(cells, cx, cz, d);
                            proof {
                                lemma_fewer_walls_keep_tree(c0, cells@, depth, par);
                            }
                        }
                    }
                }
            }
        }
    }

    /// Whether cell (cx, cz) has a wall on side `dir` (any bit of `dir`).
    pub fn wall(&self, cx: usize, cz: usize, dir: u8) -> (r: bool)
        requires
            cz * 9 + cx < 81,
        ensures
            r == (self.cells@[cz * 9 + cx] & dir != 0),
    {
        self.cells[cz * MAZE_W + cx] & dir != 0
    }

    /// The neighbour reached from (cx, cz) through side `dir`, if no wall or
    /// border is in the way.
    pub fn can_move(&self, cx: usize, cz: usize, dir: u8) -> (r: Option<(usize, usize)>)
        requires
            cz * 9 + cx < 81,
        ensures
            r == move_target(self.cells@, cx, cz, dir),
    {
        if self.wall(cx, cz, dir) {
            return None;
        }
        if dir == N {
            if cz > 0 {
                Some((cx, cz - 1))
            } else {
                None
            }
        } else if dir == S {
            if cz + 1 < MAZE_H {
                Some((cx, cz + 1))
            } else {
                None
            }
        } else if dir == E {
            if cx + 1 < MAZE_W {
                Some((cx + 1, cz))
            } else {
                None
            }
        } else {
            if cx > 0 {
                Some((cx - 1, cz))
            } else {
                None
            }
        }
    }
}

/// In a well-formed maze every move can be undone: if one can step from
/// (x, z) through side `d` to a cell, one can step back from that cell
/// through the opposite side.
pub proof fn lemma_moves_reversible(cells: Seq<u8>, x: usize, z: usize, d: u8)
    requires
        well_formed(cells),
        in_maze(x as int, z as int),
        is_dir(d),
        move_target(cells, x, z, d) is Some,
    ensures
        ({
            let (nx, nz) = move_target(cells, x, z, d)->0;
            move_target(cells, nx, nz, opposite(d)) == Some((x, z))
        }),
{
    lemma_step_back(x as int, z as int, d);
    assert(!wall_at(cells, x as int, z as int, d));
    let (nx, nz) = move_target(cells, x, z, d)->0;
    assert(wall_at(cells, x as int, z as int, d) == wall_at(
        cells,
        nx as int,
        nz as int,
        opposite(d),
    ));
}

/// No move leads out of the grid in a well-formed maze: the border walls
/// stop it.
pub proof fn lemma_moves_stay_inside(cells: Seq<u8>, x: usize, z: usize, d: u8)
    requires
        well_formed(cells),
        in_maze(x as int, z as int),
        is_dir(d),
    ensures
        move_target(cells, x, z, d) is Some <==> passage(cells, x as int, z as int, d),
{
    if !in_maze(step(x as int, z as int, d).0, step(x as int, z as int, d).1) {
        assert(wall_at(cells, x as int, z as int, d));
    }
}

} // verus!
