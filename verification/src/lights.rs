//! Where the four lamps of a maze hang: at the most open cells, kept at
//! least three cells apart, topped up at random among the sixteen most open
//! cells when fewer than four such cells exist. The page turns the cells
//! into positions in the scene.
use vstd::prelude::*;
use crate::maze::{Maze, num_walls, N, E, S, W_DIR};
use crate::math::{lcg, lcg_next, lcg_out};

verus! {

/// Open sides of a cell value.
pub open spec fn open_sides(c: u8) -> int {
    4 - num_walls(c)
}

/// The cells among the first `n` (row by row) with exactly `k` open sides,
/// as (column, row), in order.
pub open spec fn bucket(cells: Seq<u8>, k: int, n: int) -> Seq<(usize, usize)>
    decreases n,
{
    if n <= 0 {
        Seq::empty()
    } else {
        let prev = bucket(cells, k, n - 1);
        if open_sides(cells[n - 1]) == k {
            prev.push((((n - 1) % 9) as usize, ((n - 1) / 9) as usize))
        } else {
            prev
        }
    }
}

/// All cells, the most open first; cells equally open keep their row by
/// row order.
pub open spec fn ranked_from(cells: Seq<u8>, k: int) -> Seq<(usize, usize)>
    decreases k + 1,
{
    if k < 0 {
        Seq::empty()
    } else {
        bucket(cells, k, 81) + ranked_from(cells, k - 1)
    }
}

pub open spec fn ranked(cells: Seq<u8>) -> Seq<(usize, usize)> {
    ranked_from(cells, 4)
}

/// Cell `c` keeps at least three cells from each of `picks`.
pub open spec fn far_from_all(picks: Seq<(usize, usize)>, c: (usize, usize)) -> bool {
    forall|j: int|
        0 <= j < picks.len() ==> {
            let dx = c.0 - (#[trigger] picks[j]).0;
            let dz = c.1 - picks[j].1;
            dx * dx + dz * dz >= 9
        }
}

/// The picks after looking at the first `n` ranked cells: each is taken if
/// it keeps its distance from those taken, until there are four.
pub open spec fn greedy(r: Seq<(usize, usize)>, n: int) -> Seq<(usize, usize)>
    decreases n,
{
    if n <= 0 {
        Seq::empty()
    } else {
        let p = greedy(r, n - 1);
        if p.len() >= 4 {
            p
        } else if far_from_all(p, r[n - 1]) {
            p.push(r[n - 1])
        } else {
            p
        }
    }
}

/// Tops `p` up to four picks with draws from state `s` among the first
/// sixteen ranked cells; returns the picks and the state after.
pub open spec fn topped_up(r: Seq<(usize, usize)>, p: Seq<(usize, usize)>, s: u64) -> (Seq<(usize, usize)>, u64)
    decreases 4 - p.len(),
{
    if p.len() >= 4 {
        (p, s)
    } else {
        let s1 = lcg_next(s);
        topped_up(r, p.push(r[(lcg_out(s1) % 16) as int]), s1)
    }
}

fn open_count(c: u8) -> (r: usize)
    ensures
        r == open_sides(c),
{
    let mut walls: usize = 0;
    if c & N != 0 {
        walls = walls + 1;
    }
    if c & E != 0 {
        walls = walls + 1;
    }
    if c & S != 0 {
        walls = walls + 1;
    }
    if c & W_DIR != 0 {
        walls = walls + 1;
    }
    4 - walls
}

/// The cells ordered most open first, row by row among equals.
pub fn rank_cells(maze: &Maze) -> (r: Vec<(usize, usize)>)
    ensures
        r@ == ranked(maze.cells@),
        r@.len() == 81,
{
    let mut out: Vec<(usize, usize)> = Vec::new();
    let mut k: usize = 5;
    let ghost cells = maze.cells@;
    proof {
        lemma_ranked_len(cells, 4);
        lemma_count_bounds(cells, 81);
    }
    while k > 0
        invariant
            k <= 5,
            cells == maze.cells@,
            out@ + ranked_from(cells, k as int - 1) == ranked(cells),
        decreases k,
    {
        k = k - 1;
        let ghost before = out@;
        let mut i: usize = 0;
        while i < 81
            invariant
                i <= 81,
                k <= 4,
                cells == maze.cells@,
                out@ == before + bucket(cells, k as int, i as int),
            decreases 81 - i,
        {
            if open_count(maze.cells[i]) == k {
                out.push((i % 9, i / 9));
            }
            i = i + 1;
        }
        proof {
            assert(ranked_from(cells, k as int) == bucket(cells, k as int, 81) + ranked_from(cells, k as int - 1));
            assert(before + ranked_from(cells, k as int) =~= out@ + ranked_from(cells, k as int - 1));
        }
    }
    proof {
        assert(ranked_from(cells, -1) =~= Seq::<(usize, usize)>::empty());
        assert(out@ =~= ranked(cells));
    }
    out
}

/// Cells among the first `n` with at most `k` open sides.
pub open spec fn count_open_at_most(cells: Seq<u8>, k: int, n: int) -> int
    decreases n,
{
    if n <= 0 {
        0
    } else {
        count_open_at_most(cells, k, n - 1) + if open_sides(cells[n - 1]) <= k {
            1int
        } else {
            0int
        }
    }
}

proof fn lemma_count_bounds(cells: Seq<u8>, n: int)
    requires
        n >= 0,
    ensures
        count_open_at_most(cells, 4, n) == n,
        count_open_at_most(cells, -1, n) == 0,
    decreases n,
{
    if n > 0 {
        lemma_count_bounds(cells, n - 1);
        let c = cells[n - 1];
        assert(num_walls(c) <= 4);
    }
}

proof fn lemma_bucket_count(cells: Seq<u8>, k: int, n: int)
    ensures
        bucket(cells, k, n).len() == count_open_at_most(cells, k, n) - count_open_at_most(cells, k - 1, n),
    decreases n,
{
    if n > 0 {
        lemma_bucket_count(cells, k, n - 1);
    }
}

proof fn lemma_ranked_len(cells: Seq<u8>, k: int)
    requires
        -1 <= k <= 4,
    ensures
        ranked_from(cells, k).len() == count_open_at_most(cells, k, 81) - count_open_at_most(cells, -1, 81),
    decreases k + 1,
{
    if k >= 0 {
        lemma_bucket_count(cells, k, 81);
        lemma_ranked_len(cells, k - 1);
    }
}

proof fn lemma_bucket_coords(cells: Seq<u8>, k: int, n: int)
    requires
        n <= 81,
    ensures
        forall|i: int| 0 <= i < bucket(cells, k, n).len() ==> (#[trigger] bucket(cells, k, n)[i]).0 < 9 && bucket(
            cells,
            k,
            n,
        )[i].1 < 9,
    decreases n,
{
    if n > 0 {
        lemma_bucket_coords(cells, k, n - 1);
        let m = n - 1;
        assert(0 <= m % 9 < 9 && 0 <= m / 9 < 9);
        let prev = bucket(cells, k, n - 1);
        assert forall|i: int| 0 <= i < bucket(cells, k, n).len() implies (#[trigger] bucket(cells, k, n)[i]).0 < 9
            && bucket(cells, k, n)[i].1 < 9 by {
            if i < prev.len() {
                assert(bucket(cells, k, n)[i] == prev[i]);
            }
        }
    }
}

proof fn lemma_ranked_coords(cells: Seq<u8>, k: int)
    ensures
        forall|i: int| 0 <= i < ranked_from(cells, k).len() ==> (#[trigger] ranked_from(cells, k)[i]).0 < 9
            && ranked_from(cells, k)[i].1 < 9,
    decreases k + 1,
{
    if k >= 0 {
        lemma_bucket_coords(cells, k, 81);
        lemma_ranked_coords(cells, k - 1);
        let b = bucket(cells, k, 81);
        let rest = ranked_from(cells, k - 1);
        assert forall|i: int| 0 <= i < ranked_from(cells, k).len() implies (#[trigger] ranked_from(cells, k)[i]).0 < 9
            && ranked_from(cells, k)[i].1 < 9 by {
            if i < b.len() {
                assert(ranked_from(cells, k)[i] == b[i]);
            } else {
                assert(ranked_from(cells, k)[i] == rest[i - b.len()]);
            }
        }
    }
}

/// Once four are picked, later cells change nothing.
proof fn lemma_greedy_full(r: Seq<(usize, usize)>, n: int, m: int)
    requires
        0 <= n <= m,
        greedy(r, n).len() >= 4,
    ensures
        greedy(r, m) == greedy(r, n),
    decreases m - n,
{
    if m > n {
        lemma_greedy_full(r, n, m - 1);
    }
}

proof fn lemma_greedy_len(r: Seq<(usize, usize)>, n: int)
    ensures
        greedy(r, n).len() <= 4,
    decreases n,
{
    if n > 0 {
        lemma_greedy_len(r, n - 1);
    }
}

/// The lamp cells of `maze`: the spaced-out picks among the ranked cells,
/// topped up with draws from `rng`.
pub fn find_light_cells(maze: &Maze, rng: &mut u64) -> (r: Vec<(usize, usize)>)
    ensures
        ({
            let rk = ranked(maze.cells@);
            (r@, *final(rng)) == topped_up(rk, greedy(rk, 81), *old(rng))
        }),
        r@.len() == 4,
{
    let scored = rank_cells(maze);
    let ghost rk = scored@;
    proof {
        lemma_ranked_coords(maze.cells@, 4);
    }
    let mut picks: Vec<(usize, usize)> = Vec::new();
    let mut n: usize = 0;
    while n < scored.len() && picks.len() < 4
        invariant
            rk == scored@,
            scored@.len() == 81,
            n <= 81,
            picks@ == greedy(rk, n as int),
            forall|i: int| 0 <= i < 81 ==> (#[trigger] rk[i]).0 < 9 && rk[i].1 < 9,
            forall|q: int| 0 <= q < picks@.len() ==> (#[trigger] picks@[q]).0 < 9 && picks@[q].1 < 9,
        decreases 81 - n,
    {
        let (cx, cz) = scored[n];
        let mut too_close = false;
        let mut j: usize = 0;
        while j < picks.len()
            invariant
                j <= picks@.len(),
                picks@.len() <= 4,
                cx < 9 && cz < 9,
                forall|q: int| 0 <= q < picks@.len() ==> (#[trigger] picks@[q]).0 < 9 && picks@[q].1 < 9,
                too_close == exists|q: int|
                    0 <= q < j && {
                        let dx = cx - (#[trigger] picks@[q]).0;
                        let dz = cz - picks@[q].1;
                        dx * dx + dz * dz < 9
                    },
            decreases picks@.len() - j,
        {
            let (px, pz) = picks[j];
            assert(px < 9 && pz < 9);
            let dx = cx as i32 - px as i32;
            let dz = cz as i32 - pz as i32;
            assert(-8 <= dx <= 8 && -8 <= dz <= 8);
            proof {
                assert(0 <= dx * dx <= 64 && 0 <= dz * dz <= 64) by (nonlinear_arith)
                    requires
                        -8 <= dx <= 8,
                        -8 <= dz <= 8,
                ;
            }
            if dx * dx + dz * dz < 9 {
                too_close = true;
            }
            j = j + 1;
        }
        proof {
            lemma_greedy_len(rk, n as int);
            assert(too_close == !far_from_all(picks@, (cx, cz)));
        }
        if !too_close {
            picks.push((cx, cz));
        }
        n = n + 1;
    }
    proof {
        lemma_greedy_len(rk, n as int);
        if n < 81 {
            lemma_greedy_full(rk, n as int, 81);
        }
    }
    let ghost g = picks@;
    let ghost s0 = *rng;
    while picks.len() < 4
        invariant
            rk == scored@,
            scored@.len() == 81,
            picks@.len() <= 4,
            topped_up(rk, picks@, *rng) == topped_up(rk, g, s0),
        decreases 4 - picks@.len(),
    {
        let k = lcg(rng) % 16;
        picks.push(scored[k]);
    }
    picks
}
/// The lamps chosen by distance keep at least three cells from one
/// another.
pub proof fn lemma_greedy_spread(r: Seq<(usize, usize)>, n: int)
    ensures
        forall|i: int, j: int|
            0 <= i < j < greedy(r, n).len() ==> {
                let a = #[trigger] greedy(r, n)[i];
                let b = #[trigger] greedy(r, n)[j];
                (b.0 - a.0) * (b.0 - a.0) + (b.1 - a.1) * (b.1 - a.1) >= 9
            },
    decreases n,
{
    if n > 0 {
        lemma_greedy_spread(r, n - 1);
        let p = greedy(r, n - 1);
        if p.len() < 4 && far_from_all(p, r[n - 1]) {
            let g = greedy(r, n);
            assert forall|i: int, j: int| 0 <= i < j < g.len() implies {
                let a = #[trigger] g[i];
                let b = #[trigger] g[j];
                (b.0 - a.0) * (b.0 - a.0) + (b.1 - a.1) * (b.1 - a.1) >= 9
            } by {
                if j < p.len() {
                    assert(g[i] == p[i] && g[j] == p[j]);
                } else {
                    assert(g[i] == p[i] && g[j] == r[n - 1]);
                    assert(far_from_all(p, r[n - 1]));
                }
            }
        }
    }
}

} // verus!
