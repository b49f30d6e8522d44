//! The maze chaser: a breadth-first search over open passages gives the
//! chaser its next step towards the player.
use vstd::prelude::*;
use crate::maze::{
    Maze, count_false, lemma_count_false_set, N, S, E, W_DIR, MAZE_W, well_formed, spanning_tree,
    walls_consistent, in_maze, idx, step, passage, wall_at, opposite,
};

verus! {

/// Cell `a` has a wall on side `d`.
pub open spec fn walled(cells: Seq<u8>, a: int, d: u8) -> bool {
    cells[a] & d != 0
}

/// One step through an open side leads from cell `a` to cell `b` (cells
/// numbered row by row, 9 to a row).
pub open spec fn link(cells: Seq<u8>, a: int, b: int) -> bool {
    let x = a % 9;
    let z = a / 9;
    &&& 0 <= a < 81
    &&& {
        ||| (z > 0 && b == a - 9 && !walled(cells, a, N))
        ||| (z < 8 && b == a + 9 && !walled(cells, a, S))
        ||| (x < 8 && b == a + 1 && !walled(cells, a, E))
        ||| (x > 0 && b == a - 1 && !walled(cells, a, W_DIR))
    }
}

/// `p` is a walk through open passages.
pub open spec fn is_walk(cells: Seq<u8>, p: Seq<int>) -> bool {
    &&& p.len() >= 1
    &&& forall|i: int| 0 <= i < p.len() - 1 ==> #[trigger] link(cells, p[i], p[i + 1])
}

/// Cell `b` can be reached from cell `a` through open passages.
pub open spec fn reachable(cells: Seq<u8>, a: int, b: int) -> bool {
    exists|p: Seq<int>| is_walk(cells, p) && p[0] == a && p.last() == b
}

proof fn lemma_walk_stays(cells: Seq<u8>, visited: Seq<bool>, p: Seq<int>, k: int)
    requires
        visited.len() == 81,
        is_walk(cells, p),
        0 <= p[0] < 81,
        visited[p[0]],
        forall|a: int, b: int|
            #![trigger link(cells, a, b), visited[a]]
            0 <= a < 81 && visited[a] && link(cells, a, b) ==> visited[b],
        0 <= k < p.len(),
    ensures
        visited[p[k]],
        0 <= p[k] < 81,
    decreases k,
{
    if k > 0 {
        lemma_walk_stays(cells, visited, p, k - 1);
        let i = k - 1;
        assert(link(cells, p[i], p[i + 1]));
    }
}

/// The cell one step from `a` through side `d`, if that side is open and
/// inside the maze.
pub open spec fn nb_of(cells: Seq<u8>, a: int, d: u8) -> Option<int> {
    let x = a % 9;
    let z = a / 9;
    if walled(cells, a, d) {
        None
    } else if d == N {
        if z > 0 { Some(a - 9) } else { None }
    } else if d == S {
        if z < 8 { Some(a + 9) } else { None }
    } else if d == E {
        if x < 8 { Some(a + 1) } else { None }
    } else {
        if x > 0 { Some(a - 1) } else { None }
    }
}

proof fn lemma_link_is_nb(cells: Seq<u8>, a: int, b: int)
    requires
        0 <= a < 81,
    ensures
        link(cells, a, b) <==> (nb_of(cells, a, N) == Some(b) || nb_of(cells, a, S) == Some(b) || nb_of(cells, a, E)
            == Some(b) || nb_of(cells, a, W_DIR) == Some(b)),
{
}

fn neighbour(maze: &Maze, cur: usize, d: u8) -> (r: Option<usize>)
    requires
        cur < 81,
        d == N || d == S || d == E || d == W_DIR,
    ensures
        r matches Some(b) ==> nb_of(maze.cells@, cur as int, d) == Some(b as int) && b < 81,
        r is None ==> nb_of(maze.cells@, cur as int, d) is None,
{
    let cx = cur % MAZE_W;
    let cz = cur / MAZE_W;
    if maze.cells[cur] & d != 0 {
        return None;
    }
    if d == N {
        if cz > 0 { Some(cur - 9) } else { None }
    } else if d == S {
        if cz < 8 { Some(cur + 9) } else { None }
    } else if d == E {
        if cx < 8 { Some(cur + 1) } else { None }
    } else {
        if cx > 0 { Some(cur - 1) } else { None }
    }
}

/// The search state: every visited cell but the start records a parent
/// one open step before it and one level nearer the start.
pub open spec fn search_tree(cells: Seq<u8>, visited: Seq<bool>, parent: Seq<usize>, depth: Seq<nat>, start: int) -> bool {
    &&& visited.len() == 81
    &&& parent.len() == 81
    &&& depth.len() == 81
    &&& forall|k: int|
        0 <= k < 81 && #[trigger] visited[k] && k != start ==> parent[k] < 81 && visited[parent[k] as int] && link(
            cells,
            parent[k] as int,
            k,
        ) && depth[parent[k] as int] + 1 == depth[k]
}

pub open spec fn pending(queue: Seq<usize>, head: int, a: int) -> bool {
    exists|j: int| head <= j < queue.len() && #[trigger] queue[j] == a as usize
}

/// One search step from (v0, q0, d0) to (v1, q1, d1): visited cells stay
/// visited with their depths, newly visited cells get depth `dc`, and the
/// queue grows at its end by cells not visited before.
pub open spec fn step_effect(
    v0: Seq<bool>,
    q0: Seq<usize>,
    d0: Seq<nat>,
    v1: Seq<bool>,
    q1: Seq<usize>,
    d1: Seq<nat>,
    dc: nat,
    g: int,
) -> bool {
    &&& forall|k: int| 0 <= k < 81 && #[trigger] v0[k] ==> v1[k]
    &&& forall|k: int| 0 <= k < 81 && #[trigger] v1[k] && !v0[k] && k != g ==> pending(q1, q0.len() as int, k)
    &&& forall|k: int| 0 <= k < 81 && v0[k] ==> #[trigger] d1[k] == d0[k]
    &&& forall|k: int| 0 <= k < 81 && #[trigger] v1[k] && !v0[k] ==> d1[k] == dc
    &&& q0.len() <= q1.len()
    &&& forall|k: int| 0 <= k < q0.len() ==> #[trigger] q1[k] == q0[k]
    &&& forall|k: int| q0.len() <= k < q1.len() ==> #[trigger] q1[k] < 81 && !v0[q1[k] as int]
}

proof fn lemma_step_effect_chain(
    v0: Seq<bool>,
    q0: Seq<usize>,
    d0: Seq<nat>,
    v1: Seq<bool>,
    q1: Seq<usize>,
    d1: Seq<nat>,
    v2: Seq<bool>,
    q2: Seq<usize>,
    d2: Seq<nat>,
    dc: nat,
    g: int,
)
    requires
        step_effect(v0, q0, d0, v1, q1, d1, dc, g),
        step_effect(v1, q1, d1, v2, q2, d2, dc, g),
    ensures
        step_effect(v0, q0, d0, v2, q2, d2, dc, g),
{
    assert forall|k: int| 0 <= k < 81 && #[trigger] v2[k] && !v0[k] && k != g implies pending(q2, q0.len() as int, k) by {
        if v1[k] {
            let j = choose|j: int| q0.len() <= j < q1.len() && #[trigger] q1[j] == k as usize;
            assert(q2[j] == k as usize);
        } else {
            let j = choose|j: int| q1.len() <= j < q2.len() && #[trigger] q2[j] == k as usize;
        }
    }
    assert forall|k: int| q0.len() <= k < q2.len() implies #[trigger] q2[k] < 81 && !v0[q2[k] as int] by {
        if k < q1.len() {
            assert(q2[k] == q1[k]);
        } else {
            if v0[q2[k] as int] {
                assert(v1[q2[k] as int]);
            }
        }
    }
}

/// `p` is a walk from `a` to `b`.
pub open spec fn walk_between(cells: Seq<u8>, a: int, b: int, p: Seq<int>) -> bool {
    is_walk(cells, p) && p[0] == a && p.last() == b
}

/// Cell `n` starts a walk to `b` one step shorter than any walk from `a`
/// to `b`: a first step from `a` to `n` lies on a shortest way.
pub open spec fn on_shortest_way(cells: Seq<u8>, a: int, b: int, n: int) -> bool {
    exists|p: Seq<int>| #[trigger] walk_between(cells, n, b, p) && no_shorter(cells, a, b, p.len() as int)
}

/// No walk from `a` to `b` takes fewer than `l` steps.
pub open spec fn no_shorter(cells: Seq<u8>, a: int, b: int, l: int) -> bool {
    forall|p: Seq<int>| #[trigger] walk_between(cells, a, b, p) ==> p.len() - 1 >= l
}

/// Queue entries from `h` on have depths that never fall and span at most
/// one level.
pub open spec fn layered(q: Seq<usize>, h: int, d: Seq<nat>) -> bool {
    forall|i: int, j: int|
        #![trigger q[i], q[j]]
        h <= i <= j < q.len() ==> d[q[i] as int] <= d[q[j] as int] <= d[q[i] as int] + 1
}

/// Cells already expanded lie no deeper than the next one to expand.
pub open spec fn expanded_low(v: Seq<bool>, q: Seq<usize>, h: int, d: Seq<nat>) -> bool {
    h < q.len() ==> forall|a: int| 0 <= a < 81 && #[trigger] v[a] && !pending(q, h, a) ==> d[a] <= d[q[h] as int]
}

/// An expanded cell's neighbours lie at most one level deeper.
pub open spec fn settled_depth(cells: Seq<u8>, v: Seq<bool>, q: Seq<usize>, h: int, d: Seq<nat>) -> bool {
    forall|a: int, b: int|
        #![trigger link(cells, a, b), v[a]]
        0 <= a < 81 && v[a] && link(cells, a, b) && !pending(q, h, a) && v[b] ==> d[b] <= d[a] + 1
}

/// The breadth-first order of the search.
pub open spec fn bfs_layers(cells: Seq<u8>, v: Seq<bool>, q: Seq<usize>, h: int, d: Seq<nat>) -> bool {
    &&& layered(q, h, d)
    &&& expanded_low(v, q, h, d)
    &&& settled_depth(cells, v, q, h, d)
}

proof fn lemma_depth_window(v: Seq<bool>, q: Seq<usize>, h: int, d: Seq<nat>, a: int)
    requires
        0 <= h < q.len(),
        layered(q, h, d),
        expanded_low(v, q, h, d),
        0 <= a < 81,
        v[a],
    ensures
        d[a] <= d[q[h] as int] + 1,
        pending(q, h, a) ==> d[a] >= d[q[h] as int],
{
    if pending(q, h, a) {
        let j = choose|j: int| h <= j < q.len() && #[trigger] q[j] == a as usize;
        assert(q[h] == q[h] && q[j] == q[j]);
    }
}

/// Every walk from the start reaches a visited cell in no fewer steps than
/// its depth, and an unvisited cell only beyond the level being expanded.
proof fn lemma_walk_depth(
    cells: Seq<u8>,
    v: Seq<bool>,
    q: Seq<usize>,
    h: int,
    d: Seq<nat>,
    start: int,
    p: Seq<int>,
    k: int,
)
    requires
        v.len() == 81,
        d.len() == 81,
        0 <= start < 81,
        v[start],
        d[start] == 0,
        0 <= h < q.len(),
        forall|j: int| 0 <= j < q.len() ==> #[trigger] q[j] < 81,
        forall|j: int| 0 <= j < q.len() ==> v[#[trigger] q[j] as int],
        bfs_layers(cells, v, q, h, d),
        forall|a: int, b: int|
            #![trigger link(cells, a, b), v[a]]
            0 <= a < 81 && v[a] && link(cells, a, b) && !pending(q, h, a) ==> v[b],
        is_walk(cells, p),
        p[0] == start,
        0 <= k < p.len(),
    ensures
        0 <= p[k] < 81,
        v[p[k]] ==> d[p[k]] <= k,
        !v[p[k]] ==> k >= d[q[h] as int] + 1,
    decreases k,
{
    if k > 0 {
        lemma_walk_depth(cells, v, q, h, d, start, p, k - 1);
        let u = p[k - 1];
        let w = p[k];
        assert(link(cells, p[k - 1], p[(k - 1) + 1]));
        if v[w] {
            lemma_depth_window(v, q, h, d, w);
        }
        if v[u] {
            lemma_depth_window(v, q, h, d, u);
            if !pending(q, h, u) {
                assert(v[w]);
            }
        }
    }
}

/// After cell `cur` (entry `h0`) is expanded without reaching the goal,
/// the breadth-first order holds from the next entry on.
proof fn lemma_layers_after_expand(
    cells: Seq<u8>,
    v0: Seq<bool>,
    q0: Seq<usize>,
    d0: Seq<nat>,
    v4: Seq<bool>,
    q4: Seq<usize>,
    d4: Seq<nat>,
    h0: int,
    cur: int,
    goal: int,
)
    requires
        v0.len() == 81,
        v4.len() == 81,
        d0.len() == 81,
        0 <= h0 < q0.len(),
        q0[h0] == cur as usize,
        0 <= cur < 81,
        forall|j: int| 0 <= j < q0.len() ==> #[trigger] q0[j] < 81,
        forall|j: int| 0 <= j < q0.len() ==> v0[#[trigger] q0[j] as int],
        forall|j: int| 0 <= j < q4.len() ==> v4[#[trigger] q4[j] as int],
        bfs_layers(cells, v0, q0, h0, d0),
        forall|a: int, b: int|
            #![trigger link(cells, a, b), v0[a]]
            0 <= a < 81 && v0[a] && link(cells, a, b) && !pending(q0, h0, a) ==> v0[b],
        step_effect(v0, q0, d0, v4, q4, d4, d0[cur] + 1, goal),
        !v4[goal],
    ensures
        bfs_layers(cells, v4, q4, h0 + 1, d4),
{
    let dd = d0[cur];
    assert forall|i: int, j: int|
        #![trigger q4[i], q4[j]]
        h0 + 1 <= i <= j < q4.len() implies d4[q4[i] as int] <= d4[q4[j] as int] <= d4[q4[i] as int] + 1 by {
        assert(q0[h0] == q0[h0]);
        if i < q0.len() {
            assert(q4[i] == q0[i]);
            assert(v0[q0[i] as int]);
            assert(d0[q0[h0] as int] <= d0[q0[i] as int]);
        } else {
            assert(v4[q4[i] as int] && !v0[q4[i] as int]);
        }
        if j < q0.len() {
            assert(q4[j] == q0[j]);
            assert(v0[q0[j] as int]);
            assert(d0[q0[h0] as int] <= d0[q0[j] as int] <= d0[q0[h0] as int] + 1);
        } else {
            assert(v4[q4[j] as int] && !v0[q4[j] as int]);
        }
        if i < q0.len() && j < q0.len() {
            assert(q0[i] == q0[i] && q0[j] == q0[j]);
        }
    }
    if h0 + 1 < q4.len() {
        let nh = q4[h0 + 1];
        assert(d4[nh as int] >= dd) by {
            if h0 + 1 < q0.len() {
                assert(q4[h0 + 1] == q0[h0 + 1]);
                assert(q0[h0] == q0[h0] && q0[h0 + 1] == q0[h0 + 1]);
                assert(v0[q0[h0 + 1] as int]);
            } else {
                assert(v4[nh as int] && !v0[nh as int]);
            }
        }
        assert forall|a: int| 0 <= a < 81 && #[trigger] v4[a] && !pending(q4, h0 + 1, a) implies d4[a] <= d4[q4[h0 + 1] as int] by {
            lemma_old_expanded(v0, q0, d0, v4, q4, d4, h0, cur, goal, a);
        }
    }
    assert forall|a: int, b: int|
        #![trigger link(cells, a, b), v4[a]]
        0 <= a < 81 && v4[a] && link(cells, a, b) && !pending(q4, h0 + 1, a) && v4[b] implies d4[b] <= d4[a] + 1 by {
        lemma_old_expanded(v0, q0, d0, v4, q4, d4, h0, cur, goal, a);
        lemma_link_bounds(cells, a, b);
        if v0[b] {
            lemma_depth_window(v0, q0, h0, d0, b);
            if a != cur {
                assert(v0[a] && !pending(q0, h0, a));
            }
        }
    }
}

proof fn lemma_link_bounds(cells: Seq<u8>, a: int, b: int)
    requires
        link(cells, a, b),
    ensures
        0 <= b < 81,
{
}

/// A cell visited after the expansion of `cur` and not waiting from entry
/// `h0 + 1` on was visited before, with its depth, and is `cur` itself or
/// was expanded already.
proof fn lemma_old_expanded(
    v0: Seq<bool>,
    q0: Seq<usize>,
    d0: Seq<nat>,
    v4: Seq<bool>,
    q4: Seq<usize>,
    d4: Seq<nat>,
    h0: int,
    cur: int,
    goal: int,
    a: int,
)
    requires
        v0.len() == 81,
        0 <= h0 < q0.len(),
        q0[h0] == cur as usize,
        0 <= cur < 81,
        forall|j: int| 0 <= j < q0.len() ==> #[trigger] q0[j] < 81,
        step_effect(v0, q0, d0, v4, q4, d4, d0[cur] + 1, goal),
        !v4[goal],
        layered(q0, h0, d0),
        expanded_low(v0, q0, h0, d0),
        0 <= a < 81,
        v4[a],
        !pending(q4, h0 + 1, a),
    ensures
        v0[a],
        d4[a] == d0[a],
        a == cur || !pending(q0, h0, a),
        d0[a] <= d0[cur],
{
    if !v0[a] {
        assert(a != goal);
        let j = choose|j: int| q0.len() <= j < q4.len() && #[trigger] q4[j] == a as usize;
        assert(pending(q4, h0 + 1, a));
    }
    if a != cur && pending(q0, h0, a) {
        let j = choose|j: int| h0 <= j < q0.len() && #[trigger] q0[j] == a as usize;
        assert(j != h0);
        assert(q4[j] == a as usize);
        assert(pending(q4, h0 + 1, a));
    }
}

/// Visits neighbour `nb` of `cur`, if it exists and is new: marks it,
/// records `cur` as its parent and queues it, unless it is the goal.
/// Returns whether the goal was reached.
fn visit(
    nb: Option<usize>,
    cur: usize,
    goal: usize,
    visited: &mut Vec<bool>,
    parent: &mut Vec<usize>,
    queue: &mut Vec<usize>,
) -> (found: bool)
    requires
        cur < 81,
        goal < 81,
        nb matches Some(b) ==> b < 81,
        old(visited)@.len() == 81,
        old(parent)@.len() == 81,
    ensures
        final(visited)@.len() == 81,
        final(parent)@.len() == 81,
        nb matches Some(b) ==> final(visited)@[b as int],
        ({
            let fresh = nb matches Some(b) && !old(visited)@[b as int];
            if fresh {
                let b = nb->0;
                &&& final(visited)@ == old(visited)@.update(b as int, true)
                &&& final(parent)@ == old(parent)@.update(b as int, cur)
                &&& found == (b == goal)
                &&& final(queue)@ == (if b == goal { old(queue)@ } else { old(queue)@.push(b) })
            } else {
                &&& final(visited)@ == old(visited)@
                &&& final(parent)@ == old(parent)@
                &&& !found
                &&& final(queue)@ == old(queue)@
            }
        }),
{
    match nb {
        Some(b) => {
            if visited[b] {
                return false;
            }
            visited.set(b, true);
            parent.set(b, cur);
            if b == goal {
                return true;
            }
            queue.push(b);
            false
        },
        None => false,
    }
}

/// Follows side `d` of `cur` during the search: visits the neighbour
/// there, keeping the search tree and the progress measure.
fn step_dir(
    maze: &Maze,
    cur: usize,
    d: u8,
    goal: usize,
    start: usize,
    visited: &mut Vec<bool>,
    parent: &mut Vec<usize>,
    queue: &mut Vec<usize>,
    Ghost(depth): Ghost<Seq<nat>>,
) -> (res: (bool, Ghost<Seq<nat>>))
    requires
        cur < 81,
        goal < 81,
        start < 81,
        d == N || d == S || d == E || d == W_DIR,
        search_tree(maze.cells@, old(visited)@, old(parent)@, depth, start as int),
        old(visited)@[cur as int],
        old(visited)@[start as int],
        !old(visited)@[goal as int],
        forall|k: int| 0 <= k < old(queue)@.len() ==> #[trigger] old(queue)@[k] < 81,
        forall|k: int| 0 <= k < old(queue)@.len() ==> old(visited)@[#[trigger] old(queue)@[k] as int],
    ensures
        search_tree(maze.cells@, final(visited)@, final(parent)@, res.1@, start as int),
        forall|k: int| 0 <= k < final(queue)@.len() ==> final(visited)@[#[trigger] final(queue)@[k] as int],
        forall|k: int| 0 <= k < 81 && #[trigger] old(visited)@[k] ==> final(visited)@[k],
        step_effect(old(visited)@, old(queue)@, depth, final(visited)@, final(queue)@, res.1@, depth[cur as int] + 1, goal as int),
        final(visited)@[start as int],
        res.0 == final(visited)@[goal as int],
        nb_of(maze.cells@, cur as int, d) matches Some(b) ==> final(visited)@[b],
        forall|k: int| 0 <= k < final(queue)@.len() ==> #[trigger] final(queue)@[k] < 81,
        forall|k: int| 0 <= k < old(queue)@.len() ==> #[trigger] final(queue)@[k] == old(queue)@[k],
        old(queue)@.len() <= final(queue)@.len() <= old(queue)@.len() + 1,
        forall|k: int|
            0 <= k < 81 && #[trigger] final(visited)@[k] && !old(visited)@[k] ==> k == goal || (final(queue)@.len()
                == old(queue)@.len() + 1 && final(queue)@.last() == k),
        2 * count_false(final(visited)@, 81) + final(queue)@.len() + (if final(queue)@.len() == old(queue)@.len() && final(visited)@ != old(visited)@ { 1int } else { 0int }) <= 2 * count_false(old(visited)@, 81) + old(queue)@.len(),
        final(visited)@ != old(visited)@ ==> count_false(final(visited)@, 81) + 1 == count_false(old(visited)@, 81),
{
    let nb = neighbour(maze, cur, d);
    let ghost v0 = visited@;
    let ghost q0 = queue@;
    let found = visit(nb, cur, goal, visited, parent, queue);
    let ghost mut depth2 = depth;
    proof {
        if let Some(b) = nb {
            if !v0[b as int] {
                depth2 = depth.update(b as int, depth[cur as int] + 1);
                lemma_count_false_set(v0, b as int, 81);
                lemma_link_is_nb(maze.cells@, cur as int, b as int);
                if b != goal {
                    assert(queue@[q0.len() as int] == b);
                    assert(pending(queue@, q0.len() as int, b as int));
                }
                assert(link(maze.cells@, cur as int, b as int));
                assert(visited@ != v0) by {
                    assert(!v0[b as int] && visited@[b as int]);
                }
                assert forall|k: int|
                    0 <= k < 81 && #[trigger] visited@[k] && k != start implies parent@[k] < 81 && visited@[parent@[k] as int]
                        && link(maze.cells@, parent@[k] as int, k) && depth2[parent@[k] as int] + 1 == depth2[k] by {
                    if 0 <= k < 81 && visited@[k] && k != start && k != b {
                        assert(v0[k]);
                        assert(parent@[k] != b);
                    }
                }
            }
        }
    }
    (found, Ghost(depth2))
}

/// Expands queue entry `h0`, the cell `cur`: follows its four sides in the
/// order north, south, east, west, stopping once the goal is reached.
#[verifier::spinoff_prover]
#[verifier::rlimit(80)]
fn expand(
    maze: &Maze,
    cur: usize,
    goal: usize,
    start: usize,
    visited: &mut Vec<bool>,
    parent: &mut Vec<usize>,
    queue: &mut Vec<usize>,
    Ghost(depth): Ghost<Seq<nat>>,
    Ghost(h0): Ghost<int>,
) -> (res: (bool, Ghost<Seq<nat>>))
    requires
        cur < 81,
        goal < 81,
        start < 81,
        0 <= h0 < old(queue)@.len(),
        old(queue)@[h0] == cur,
        search_tree(maze.cells@, old(visited)@, old(parent)@, depth, start as int),
        old(visited)@[start as int],
        !old(visited)@[goal as int],
        forall|k: int| 0 <= k < old(queue)@.len() ==> #[trigger] old(queue)@[k] < 81,
        forall|k: int| 0 <= k < old(queue)@.len() ==> old(visited)@[#[trigger] old(queue)@[k] as int],
        forall|a: int, b: int|
            #![trigger link(maze.cells@, a, b), old(visited)@[a]]
            0 <= a < 81 && old(visited)@[a] && link(maze.cells@, a, b) && !pending(old(queue)@, h0, a) ==> old(visited)@[b],
    ensures
        search_tree(maze.cells@, final(visited)@, final(parent)@, res.1@, start as int),
        final(visited)@[start as int],
        res.0 == final(visited)@[goal as int],
        forall|k: int| 0 <= k < final(queue)@.len() ==> #[trigger] final(queue)@[k] < 81,
        forall|k: int| 0 <= k < final(queue)@.len() ==> final(visited)@[#[trigger] final(queue)@[k] as int],
        old(queue)@.len() <= final(queue)@.len(),
        2 * count_false(final(visited)@, 81) + final(queue)@.len() <= 2 * count_false(old(visited)@, 81) + old(queue)@.len(),
        step_effect(old(visited)@, old(queue)@, depth, final(visited)@, final(queue)@, res.1@, depth[cur as int] + 1, goal as int),
        nb_of(maze.cells@, cur as int, N) matches Some(b) ==> final(visited)@[b],
        nb_of(maze.cells@, cur as int, S) matches Some(b) ==> final(visited)@[b] || res.0,
        nb_of(maze.cells@, cur as int, E) matches Some(b) ==> final(visited)@[b] || res.0,
        nb_of(maze.cells@, cur as int, W_DIR) matches Some(b) ==> final(visited)@[b] || res.0,
        !res.0 ==> forall|a: int, b: int|
            #![trigger link(maze.cells@, a, b), final(visited)@[a]]
            0 <= a < 81 && final(visited)@[a] && link(maze.cells@, a, b) && !pending(final(queue)@, h0 + 1, a) ==> final(visited)@[b],
{
    let ghost cells = maze.cells@;
    let ghost v0 = visited@;
    let ghost q0 = queue@;
    let r0 = step_dir(maze, cur, N, goal, start, visited, parent, queue, Ghost(depth));
    let mut found = r0.0;
    let ghost mut d = r0.1@;
    let ghost dc = depth[cur as int] + 1;
    let ghost v1 = visited@;
    let ghost q1 = queue@;
    let ghost d1 = d;
    if !found {
        let r1 = step_dir(maze, cur, S, goal, start, visited, parent, queue, Ghost(d));
        found = r1.0;
        proof {
            assert(d1[cur as int] == depth[cur as int]);
            lemma_step_effect_chain(v0, q0, depth, v1, q1, d1, visited@, queue@, r1.1@, dc, goal as int);
            d = r1.1@;
        }
    }
    let ghost v2 = visited@;
    let ghost q2 = queue@;
    let ghost d2 = d;
    if !found {
        let r2 = step_dir(maze, cur, E, goal, start, visited, parent, queue, Ghost(d));
        found = r2.0;
        proof {
            assert(d2[cur as int] == depth[cur as int]);
            lemma_step_effect_chain(v0, q0, depth, v2, q2, d2, visited@, queue@, r2.1@, dc, goal as int);
            d = r2.1@;
        }
    }
    let ghost v3 = visited@;
    let ghost q3 = queue@;
    let ghost d3 = d;
    if !found {
        let r3 = step_dir(maze, cur, W_DIR, goal, start, visited, parent, queue, Ghost(d));
        found = r3.0;
        proof {
            assert(d3[cur as int] == depth[cur as int]);
            lemma_step_effect_chain(v0, q0, depth, v3, q3, d3, visited@, queue@, r3.1@, dc, goal as int);
            d = r3.1@;
        }
    }
    proof {
        if !found {
            lemma_closed_after_expand(cells, v0, v1, v2, v3, visited@, q0, q1, q2, q3, queue@, h0, cur as int, goal as int);
        }
    }
    (found, Ghost(d))
}

/// Breadth-first search from cell `start` towards `goal`, trying north,
/// south, east, west: the search tree it grew and whether it reached the
/// goal.
fn bfs_search(maze: &Maze, start: usize, goal: usize) -> (res: (bool, Vec<bool>, Vec<usize>, Ghost<Seq<nat>>))
    requires
        start < 81,
        goal < 81,
        start != goal,
    ensures
        res.0 ==> search_tree(maze.cells@, res.1@, res.2@, res.3@, start as int) && res.1@[goal as int] && res.1@[start as int]
            && res.3@[start as int] == 0 && no_shorter(maze.cells@, start as int, goal as int, res.3@[goal as int] as int),
        !res.0 ==> !reachable(maze.cells@, start as int, goal as int),
{
    let ghost cells = maze.cells@;
    let mut visited: Vec<bool> = Vec::new();
    let mut parent: Vec<usize> = Vec::new();
    let mut i: usize = 0;
    while i < 81
        invariant
            i <= 81,
            visited@.len() == i,
            parent@.len() == i,
            forall|k: int| 0 <= k < i ==> !#[trigger] visited@[k],
        decreases 81 - i,
    {
        visited.push(false);
        parent.push(i);
        i = i + 1;
    }
    let ghost mut depth: Seq<nat> = Seq::new(81, |k: int| 0nat);
    let mut queue: Vec<usize> = Vec::new();
    let mut head: usize = 0;
    proof {
        assert(visited@ =~= Seq::new(81, |k: int| false));
    }
    visited.set(start, true);
    queue.push(start);
    let mut found = false;
    proof {
        assert forall|a: int, b: int|
            #![trigger link(cells, a, b), visited@[a]]
            0 <= a < 81 && visited@[a] && link(cells, a, b) && !pending(queue@, head as int, a) implies visited@[b] by {
            if 0 <= a < 81 && visited@[a] {
                assert(a == start);
                assert(queue@[0] == a as usize);
            }
        }
    }
    while !found && head < queue.len()
        invariant
            start < 81,
            goal < 81,
            start != goal,
            cells == maze.cells@,
            search_tree(cells, visited@, parent@, depth, start as int),
            visited@[start as int],
            head <= queue@.len(),
            forall|k: int| 0 <= k < queue@.len() ==> #[trigger] queue@[k] < 81,
            forall|k: int| 0 <= k < queue@.len() ==> visited@[#[trigger] queue@[k] as int],
            found == visited@[goal as int],
            !found ==> forall|a: int, b: int|
                #![trigger link(cells, a, b), visited@[a]]
                0 <= a < 81 && visited@[a] && link(cells, a, b) && !pending(queue@, head as int, a) ==> visited@[b],
            depth[start as int] == 0,
            !found ==> bfs_layers(cells, visited@, queue@, head as int, depth),
            found ==> no_shorter(cells, start as int, goal as int, depth[goal as int] as int),
        decreases 2 * count_false(visited@, 81) + (queue@.len() - head),
    {
        let cur = queue[head];
        let ghost h0 = head;
        let ghost v0 = visited@;
        let ghost q0 = queue@;
        let ghost d0 = depth;
        proof {
            assert forall|p: Seq<int>| #[trigger] walk_between(cells, start as int, goal as int, p) implies p.len() - 1
                >= d0[cur as int] + 1 by {
                lemma_walk_depth(cells, v0, q0, h0 as int, d0, start as int, p, p.len() - 1);
            }
        }
        head = head + 1;
        let r = expand(maze, cur, goal, start, &mut visited, &mut parent, &mut queue, Ghost(depth), Ghost(h0 as int));
        found = r.0;
        proof {
            depth = r.1@;
            assert(depth[start as int] == d0[start as int]);
            if found {
                assert(depth[goal as int] == d0[cur as int] + 1);
            } else {
                lemma_layers_after_expand(cells, v0, q0, d0, visited@, queue@, depth, h0 as int, cur as int, goal as int);
            }
        }
    }
    if !found {
        proof {
            assert forall|p: Seq<int>| is_walk(cells, p) && p[0] == start implies p.last() != goal by {
                assert forall|a: int, b: int|
                    #![trigger link(cells, a, b), visited@[a]]
                    0 <= a < 81 && visited@[a] && link(cells, a, b) implies visited@[b] by {
                    assert(!pending(queue@, head as int, a));
                }
                lemma_walk_stays(cells, visited@, p, p.len() - 1);
            }
        }
    }
    (found, visited, parent, Ghost(depth))
}

/// The shortest walk from `a` to `b` takes `k` steps.
pub open spec fn shortest(cells: Seq<u8>, a: int, b: int, k: int) -> bool {
    &&& exists|p: Seq<int>| #[trigger] walk_between(cells, a, b, p) && p.len() == k + 1
    &&& no_shorter(cells, a, b, k)
}

/// A walk of cells in `0..81` without repeats has at most 81 cells.
proof fn lemma_distinct_cells(p: Seq<int>)
    requires
        forall|i: int| 0 <= i < p.len() ==> 0 <= #[trigger] p[i] < 81,
        p.no_duplicates(),
    ensures
        p.len() <= 81,
{
    p.unique_seq_to_set();
    vstd::set_lib::lemma_int_range(0, 81);
    assert(p.to_set().subset_of(vstd::set_lib::set_int_range(0, 81)));
    vstd::set_lib::lemma_len_subset(p.to_set(), vstd::set_lib::set_int_range(0, 81));
}

/// How many steps the shortest walk from `from` to `goal` takes (see
/// `shortest`); nothing when there is none.
#[verifier::spinoff_prover]
#[verifier::rlimit(60)]
fn walk_dist(maze: &Maze, from: usize, goal: usize) -> (r: Option<usize>)
    requires
        from < 81,
        goal < 81,
    ensures
        r matches Some(k) ==> shortest(maze.cells@, from as int, goal as int, k as int),
        r is None ==> !reachable(maze.cells@, from as int, goal as int),
{
    let ghost cells = maze.cells@;
    if from == goal {
        proof {
            assert(walk_between(cells, from as int, goal as int, seq![from as int]));
        }
        return Some(0);
    }
    let (found, visited, parent, Ghost(depth)) = bfs_search(maze, from, goal);
    if !found {
        return None;
    }
    let mut cur = goal;
    let mut k: usize = 1;
    let ghost mut path: Seq<int> = seq![goal as int];
    while parent[cur] != from
        invariant
            cur < 81,
            cur != from,
            visited@[cur as int],
            from < 81,
            goal < 81,
            cells == maze.cells@,
            search_tree(cells, visited@, parent@, depth, from as int),
            is_walk(cells, path),
            path[0] == cur,
            path.last() == goal,
            path.len() - 1 == depth[goal as int] - depth[cur as int],
            k == path.len(),
            forall|i: int| 0 <= i < path.len() ==> 0 <= #[trigger] path[i] < 81 && depth[path[i]] == depth[cur as int] + i,
            depth[from as int] == 0,
            no_shorter(cells, from as int, goal as int, depth[goal as int] as int),
        decreases depth[cur as int],
    {
        let ghost old_path = path;
        let next = parent[cur];
        proof {
            path = seq![next as int] + old_path;
            assert forall|i: int| 0 <= i < path.len() - 1 implies #[trigger] link(cells, path[i], path[i + 1]) by {
                if i > 0 {
                    let j = i - 1;
                    assert(path[i] == old_path[j]);
                    assert(path[i + 1] == old_path[j + 1]);
                    assert(link(cells, old_path[j], old_path[j + 1]));
                } else {
                    assert(path[1] == old_path[0]);
                    assert(link(cells, parent@[cur as int] as int, cur as int));
                }
            }
            assert forall|i: int| 0 <= i < path.len() implies 0 <= #[trigger] path[i] < 81 && depth[path[i]]
                == depth[next as int] + i by {
                if i > 0 {
                    assert(path[i] == old_path[i - 1]);
                }
            }
            assert(path.no_duplicates()) by {
                assert forall|a: int, b: int| 0 <= a < path.len() && 0 <= b < path.len() && a != b implies path[a]
                    != path[b] by {
                    assert(depth[path[a]] == depth[next as int] + a);
                    assert(depth[path[b]] == depth[next as int] + b);
                }
            }
            lemma_distinct_cells(path);
        }
        cur = next;
        k = k + 1;
    }
    proof {
        assert(link(cells, from as int, cur as int) && depth[cur as int] == 1) by {
            assert(visited@[cur as int] && cur != from);
        }
        lemma_walk_from(cells, from as int, goal as int, path);
    }
    Some(k)
}

/// Side `d` of cell `a` is open and its neighbour starts a shortest way to
/// `b`.
pub open spec fn starts_way(cells: Seq<u8>, a: int, b: int, d: int) -> bool {
    match side_step(cells, a, d) {
        Some(m) => on_shortest_way(cells, a, b, m),
        None => false,
    }
}

/// A walk from `a`'s neighbour `path[0]` to `b`, as long as the shortest
/// from `a` to `b`, makes the shortest walk one step longer.
proof fn lemma_walk_from(cells: Seq<u8>, a: int, b: int, path: Seq<int>)
    requires
        is_walk(cells, path),
        path.last() == b,
        link(cells, a, path[0]),
        no_shorter(cells, a, b, path.len() as int),
    ensures
        shortest(cells, a, b, path.len() as int),
{
    let full = seq![a] + path;
    assert forall|i: int| 0 <= i < full.len() - 1 implies #[trigger] link(cells, full[i], full[i + 1]) by {
        if i > 0 {
            assert(full[i] == path[i - 1]);
            assert(full[i + 1] == path[i]);
            assert(link(cells, path[i - 1], path[(i - 1) + 1]));
        } else {
            assert(full[1] == path[0]);
        }
    }
    assert(walk_between(cells, a, b, full));
}

/// `n` is the neighbour of `a` on the first side, in the order north,
/// south, east, west, that starts a shortest way to `b`.
pub open spec fn first_way(cells: Seq<u8>, a: int, b: int, n: int) -> bool {
    exists|d: int|
        0 <= d < 4 && #[trigger] side_step(cells, a, d) == Some(n) && forall|e: int|
            0 <= e < d ==> !#[trigger] starts_way(cells, a, b, e)
}

/// The neighbour of cell `a` on side `d` (0 north, 1 south, 2 east, 3
/// west), when the passage is open.
pub open spec fn side_step(cells: Seq<u8>, a: int, d: int) -> Option<int> {
    let n = if d == 0 { a - 9 } else if d == 1 { a + 9 } else if d == 2 { a + 1 } else { a - 1 };
    if link(cells, a, n) { Some(n) } else { None }
}

/// The first step of a shortest way from (sx, sz) to (tx, tz) through the
/// maze, the sides tried in the order north, south, east, west (as a
/// breadth-first search in that order finds it); nothing when already
/// there or when no way exists.
pub fn bfs_next(maze: &Maze, sx: usize, sz: usize, tx: usize, tz: usize) -> (r: Option<(usize, usize)>)
    requires
        sx < 9,
        sz < 9,
        tx < 9,
        tz < 9,
    ensures
        sx == tx && sz == tz ==> r.is_none(),
        r matches Some((nx, nz)) ==> nx < 9 && nz < 9 && link(maze.cells@, sz * 9 + sx, nz * 9 + nx)
            && reachable(maze.cells@, nz * 9 + nx, tz * 9 + tx),
        r.is_none() && !(sx == tx && sz == tz) ==> !reachable(maze.cells@, sz * 9 + sx, tz * 9 + tx),
        r matches Some((nx, nz)) ==> on_shortest_way(maze.cells@, sz * 9 + sx, tz * 9 + tx, nz * 9 + nx),
        r matches Some((nx, nz)) ==> first_way(maze.cells@, sz * 9 + sx, tz * 9 + tx, nz * 9 + nx),
{
    if sx == tx && sz == tz {
        return None;
    }
    let ghost cells = maze.cells@;
    let start = sz * MAZE_W + sx;
    let goal = tz * MAZE_W + tx;
    let total = match walk_dist(maze, start, goal) {
        Some(l) => l,
        None => {
            return None;
        },
    };
    let ghost sp = choose|p: Seq<int>| #[trigger] walk_between(cells, start as int, goal as int, p) && p.len() == total + 1;
    let mut d: usize = 0;
    while d < 4
        invariant
            d <= 4,
            start < 81,
            goal < 81,
            start != goal,
            start == sz * 9 + sx,
            goal == tz * 9 + tx,
            cells == maze.cells@,
            shortest(cells, start as int, goal as int, total as int),
            walk_between(cells, start as int, goal as int, sp),
            sp.len() == total + 1,
            forall|e: int| 0 <= e < d ==> !#[trigger] starts_way(cells, start as int, goal as int, e),
        decreases 4 - d,
    {
        let x = start % MAZE_W;
        let z = start / MAZE_W;
        let (open, n): (bool, usize) = if d == 0 {
            (z > 0 && !maze.wall(x, z, N), if z > 0 { start - 9 } else { 0 })
        } else if d == 1 {
            (z < 8 && !maze.wall(x, z, S), start + 9)
        } else if d == 2 {
            (x < 8 && !maze.wall(x, z, E), start + 1)
        } else {
            (x > 0 && !maze.wall(x, z, W_DIR), if x > 0 { start - 1 } else { 0 })
        };
        proof {
            assert(open == (side_step(cells, start as int, d as int) is Some));
            assert(open ==> side_step(cells, start as int, d as int) == Some(n as int));
        }
        if open {
            let dn = walk_dist(maze, n, goal);
            proof {
                lemma_first_step_test(cells, start as int, goal as int, n as int, total as int, sp, dn);
            }
            match dn {
                Some(k) => {
                    if total >= 1 && k == total - 1 {
                        let nx = n % MAZE_W;
                        let nz = n / MAZE_W;
                        proof {
                            assert(nz * 9 + nx == n);
                            let p = choose|p: Seq<int>| #[trigger] walk_between(cells, n as int, goal as int, p) && p.len()
                                == k + 1;
                            assert(reachable(cells, n as int, goal as int));
                            assert(side_step(cells, start as int, d as int) == Some(nz * 9 + nx as int));
                        }
                        return Some((nx, nz));
                    }
                },
                None => {},
            }
        }
        d = d + 1;
    }
    proof {
        lemma_some_side_on_way(cells, start as int, goal as int, total as int, sp);
    }
    None
}

/// Whether an open neighbour `n` of `a` lies on a shortest way to `b` is
/// told by its own distance: one less than `a`'s.
proof fn lemma_first_step_test(
    cells: Seq<u8>,
    a: int,
    b: int,
    n: int,
    l: int,
    sp: Seq<int>,
    dn: Option<usize>,
)
    requires
        link(cells, a, n),
        shortest(cells, a, b, l),
        walk_between(cells, a, b, sp),
        sp.len() == l + 1,
        dn matches Some(k) ==> shortest(cells, n, b, k as int),
        dn is None ==> !reachable(cells, n, b),
    ensures
        on_shortest_way(cells, a, b, n) <==> (dn matches Some(k) && k + 1 == l),
{
    if on_shortest_way(cells, a, b, n) {
        let p = choose|p: Seq<int>| #[trigger] walk_between(cells, n, b, p) && no_shorter(cells, a, b, p.len() as int);
        assert(reachable(cells, n, b));
        let k = dn->0 as int;
        assert(p.len() - 1 >= k);
        assert(sp.len() - 1 >= p.len());
        let q = choose|q: Seq<int>| #[trigger] walk_between(cells, n, b, q) && q.len() == k + 1;
        let w = seq![a] + q;
        assert forall|i: int| 0 <= i < w.len() - 1 implies #[trigger] link(cells, w[i], w[i + 1]) by {
            if i > 0 {
                assert(w[i] == q[i - 1]);
                assert(w[i + 1] == q[i]);
                assert(link(cells, q[i - 1], q[(i - 1) + 1]));
            } else {
                assert(w[0] == a);
                assert(w[1] == q[0]);
            }
        }
        assert(walk_between(cells, a, b, w));
    }
    match dn {
        Some(k) => {
            if k + 1 == l {
                let q = choose|q: Seq<int>| #[trigger] walk_between(cells, n, b, q) && q.len() == k + 1;
                assert(no_shorter(cells, a, b, q.len() as int));
            }
        },
        None => {},
    }
}

/// Some open side of `a` starts a shortest way to `b` (the second cell
/// of a shortest walk does).
proof fn lemma_some_side_on_way(cells: Seq<u8>, a: int, b: int, l: int, sp: Seq<int>)
    requires
        a != b,
        shortest(cells, a, b, l),
        walk_between(cells, a, b, sp),
        sp.len() == l + 1,
    ensures
        exists|d: int| 0 <= d < 4 && #[trigger] starts_way(cells, a, b, d),
{
    assert(sp.len() >= 2);
    assert(link(cells, sp[0], sp[0int + 1]));
    let n = sp[1];
    let rest = sp.subrange(1, sp.len() as int);
    assert forall|i: int| 0 <= i < rest.len() - 1 implies #[trigger] link(cells, rest[i], rest[i + 1]) by {
        assert(rest[i] == sp[i + 1]);
        assert(rest[i + 1] == sp[i + 2]);
        assert(link(cells, sp[i + 1], sp[i + 2]));
    }
    assert(walk_between(cells, n, b, rest));
    assert(no_shorter(cells, a, b, rest.len() as int));
    assert(on_shortest_way(cells, a, b, n));
    let d: int = if n == a - 9 { 0 } else if n == a + 9 { 1 } else if n == a + 1 { 2 } else { 3 };
    assert(side_step(cells, a, d) == Some(n));
    assert(starts_way(cells, a, b, d));
}

/// After expanding `cur` (queue entry `h0`) through its four sides without
/// reaching the goal, the visited cells stay closed under open steps,
/// apart from the ones still waiting.
proof fn lemma_closed_after_expand(
    cells: Seq<u8>,
    v0: Seq<bool>,
    v1: Seq<bool>,
    v2: Seq<bool>,
    v3: Seq<bool>,
    v4: Seq<bool>,
    q0: Seq<usize>,
    q1: Seq<usize>,
    q2: Seq<usize>,
    q3: Seq<usize>,
    q4: Seq<usize>,
    h0: int,
    cur: int,
    goal: int,
)
    requires
        0 <= h0 < q0.len(),
        q0[h0] == cur as usize,
        0 <= cur < 81,
        v0.len() == 81 && v1.len() == 81 && v2.len() == 81 && v3.len() == 81 && v4.len() == 81,
        !v4[goal],
        forall|a: int, b: int|
            #![trigger link(cells, a, b), v0[a]]
            0 <= a < 81 && v0[a] && link(cells, a, b) && !pending(q0, h0, a) ==> v0[b],
        forall|k: int| 0 <= k < 81 && #[trigger] v0[k] ==> v1[k],
        forall|k: int| 0 <= k < 81 && #[trigger] v1[k] ==> v2[k],
        forall|k: int| 0 <= k < 81 && #[trigger] v2[k] ==> v3[k],
        forall|k: int| 0 <= k < 81 && #[trigger] v3[k] ==> v4[k],
        forall|k: int| 0 <= k < q0.len() ==> #[trigger] q1[k] == q0[k],
        forall|k: int| 0 <= k < q1.len() ==> #[trigger] q2[k] == q1[k],
        forall|k: int| 0 <= k < q2.len() ==> #[trigger] q3[k] == q2[k],
        forall|k: int| 0 <= k < q3.len() ==> #[trigger] q4[k] == q3[k],
        q0.len() <= q1.len() <= q2.len() <= q3.len() <= q4.len(),
        forall|k: int| 0 <= k < 81 && #[trigger] v1[k] && !v0[k] ==> k == goal || (q1.len() == q0.len() + 1 && q1.last() == k),
        forall|k: int| 0 <= k < 81 && #[trigger] v2[k] && !v1[k] ==> k == goal || (q2.len() == q1.len() + 1 && q2.last() == k),
        forall|k: int| 0 <= k < 81 && #[trigger] v3[k] && !v2[k] ==> k == goal || (q3.len() == q2.len() + 1 && q3.last() == k),
        forall|k: int| 0 <= k < 81 && #[trigger] v4[k] && !v3[k] ==> k == goal || (q4.len() == q3.len() + 1 && q4.last() == k),
        nb_of(cells, cur, N) matches Some(b) ==> v1[b],
        nb_of(cells, cur, S) matches Some(b) ==> v2[b],
        nb_of(cells, cur, E) matches Some(b) ==> v3[b],
        nb_of(cells, cur, W_DIR) matches Some(b) ==> v4[b],
    ensures
        forall|a: int, b: int|
            #![trigger link(cells, a, b), v4[a]]
            0 <= a < 81 && v4[a] && link(cells, a, b) && !pending(q4, h0 + 1, a) ==> v4[b],
{
    assert forall|a: int, b: int|
        #![trigger link(cells, a, b), v4[a]]
        0 <= a < 81 && v4[a] && link(cells, a, b) && !pending(q4, h0 + 1, a) implies v4[b] by {
        lemma_link_is_nb(cells, a, b);
        if a == cur {
            if nb_of(cells, cur, N) == Some(b) {
                assert(v1[b]);
                assert(v2[b]);
                assert(v3[b]);
            } else if nb_of(cells, cur, S) == Some(b) {
                assert(v2[b]);
                assert(v3[b]);
            } else if nb_of(cells, cur, E) == Some(b) {
                assert(v3[b]);
            }
        } else if v0[a] {
            if pending(q0, h0, a) {
                let j = choose|j: int| h0 <= j < q0.len() && #[trigger] q0[j] == a as usize;
                assert(j != h0);
                assert(q1[j] == a as usize);
                assert(q2[j] == a as usize);
                assert(q3[j] == a as usize);
                assert(q4[j] == a as usize);
            }
            assert(v0[b]);
            assert(v1[b]);
            assert(v2[b]);
            assert(v3[b]);
        } else {
            assert(a != goal);
            if v1[a] {
                let j = q1.len() - 1;
                assert(q2[j] == a as usize);
                assert(q3[j] == a as usize);
                assert(q4[j] == a as usize);
            } else if v2[a] {
                let j = q2.len() - 1;
                assert(q3[j] == a as usize);
                assert(q4[j] == a as usize);
            } else if v3[a] {
                let j = q3.len() - 1;
                assert(q4[j] == a as usize);
            } else {
                let j = q4.len() - 1;
                assert(q4[j] == a as usize);
            }
        }
    }
}

/// The chaser's place on the grid and whether it is still hunting.
pub struct Enemy {
    pub ex: usize,
    pub ez: usize,
    pub active: bool,
    pub caught: bool,
}

/// What one move of the chaser `e0` towards the player at (px, pz) may
/// leave, `e1`: an inactive chaser, or one that has caught the player,
/// stays; any other steps through an open side onto a cell on a shortest
/// way to the player, or stays where no way leads or where it
/// already stands on the player, and has caught the player exactly when it
/// stands on the player's cell.
pub open spec fn chased(cells: Seq<u8>, e0: Enemy, e1: Enemy, px: usize, pz: usize) -> bool {
    &&& e1.wf()
    &&& e1.active == e0.active
    &&& (!e0.active || e0.caught ==> e1 == e0)
    &&& (e0.active && !e0.caught ==> {
        &&& (e1.ex != e0.ex || e1.ez != e0.ez) ==> link(cells, e0.ez * 9 + e0.ex, e1.ez * 9 + e1.ex)
            && reachable(cells, e1.ez * 9 + e1.ex, pz * 9 + px) && on_shortest_way(
            cells,
            e0.ez * 9 + e0.ex,
            pz * 9 + px,
            e1.ez * 9 + e1.ex,
        ) && first_way(cells, e0.ez * 9 + e0.ex, pz * 9 + px, e1.ez * 9 + e1.ex)
        &&& (e1.ex == e0.ex && e1.ez == e0.ez) ==> (e0.ex == px && e0.ez == pz) || !reachable(
            cells,
            e0.ez * 9 + e0.ex,
            pz * 9 + px,
        )
        &&& e1.caught == (e1.ex == px && e1.ez == pz)
    })
}

impl Enemy {
    /// The chaser stands on the grid.
    pub open spec fn wf(&self) -> bool {
        self.ex < 9 && self.ez < 9
    }

    /// A chaser in the north-east corner, hunting.
    pub fn new() -> (e: Self)
        ensures
            e.wf(),
            e.ex == 8 && e.ez == 0,
            e.active && !e.caught,
    {
        Enemy { ex: MAZE_W - 1, ez: 0, active: true, caught: false }
    }

    /// One move of the chaser once its timer has run out: a step along a way
    /// to the player at (px, pz), then a catch if it stands on the player.
    /// A chaser that is inactive or has caught the player stays as it is.
    pub fn chase_step(&mut self, maze: &Maze, px: usize, pz: usize)
        requires
            old(self).wf(),
            px < 9,
            pz < 9,
        ensures
            chased(maze.cells@, *old(self), *final(self), px, pz),
    {
        if !self.active || self.caught {
            return;
        }
        match bfs_next(maze, self.ex, self.ez, px, pz) {
            Some((nx, nz)) => {
                proof {
                    assert(link(maze.cells@, self.ez * 9 + self.ex, nz * 9 + nx));
                }
                self.ex = nx;
                self.ez = nz;
            },
            None => {},
        }
        if self.ex == px && self.ez == pz {
            self.caught = true;
        }
    }

    /// Grid distance (sum of the row and column gaps) to (px, pz).
    pub fn distance_to(&self, px: usize, pz: usize) -> (d: usize)
        requires
            self.wf(),
            px <= i32::MAX,
            pz <= i32::MAX,
        ensures
            d == (if self.ex >= px { self.ex - px } else { px - self.ex }) + (if self.ez >= pz {
                self.ez - pz
            } else {
                pz - self.ez
            }),
    {
        let dx: usize = if self.ex >= px { self.ex - px } else { px - self.ex };
        let dz: usize = if self.ez >= pz { self.ez - pz } else { pz - self.ez };
        dx + dz
    }
}

proof fn lemma_cell_coords(a: int)
    requires
        0 <= a < 81,
    ensures
        0 <= a % 9 < 9,
        0 <= a / 9 < 9,
        idx(a % 9, a / 9) == a,
{
}

proof fn lemma_idx_coords(x: int, z: int)
    requires
        in_maze(x, z),
    ensures
        idx(x, z) % 9 == x,
        idx(x, z) / 9 == z,
        0 <= idx(x, z) < 81,
{
}

/// An open passage is one step of a walk.
proof fn lemma_passage_link(cells: Seq<u8>, x: int, z: int, d: u8)
    requires
        passage(cells, x, z, d),
    ensures
        link(cells, idx(x, z), idx(step(x, z, d).0, step(x, z, d).1)),
{
    lemma_idx_coords(x, z);
    lemma_idx_coords(step(x, z, d).0, step(x, z, d).1);
}

/// With walls seen from both sides, a step can be taken back.
proof fn lemma_link_back(cells: Seq<u8>, x: int, z: int, d: u8)
    requires
        passage(cells, x, z, d),
        walls_consistent(cells),
    ensures
        link(cells, idx(step(x, z, d).0, step(x, z, d).1), idx(x, z)),
{
    let q = step(x, z, d);
    lemma_idx_coords(x, z);
    lemma_idx_coords(q.0, q.1);
    assert(wall_at(cells, x, z, d) == wall_at(cells, q.0, q.1, opposite(d)));
    assert(step(q.0, q.1, opposite(d)) == (x, z));
    assert(passage(cells, q.0, q.1, opposite(d)));
    lemma_passage_link(cells, q.0, q.1, opposite(d));
}

/// A walk from cell `a` down the spanning tree to the corner cell 0.
proof fn lemma_walk_to_root(cells: Seq<u8>, depth: Seq<nat>, par: Seq<u8>, a: int) -> (p: Seq<int>)
    requires
        spanning_tree(cells, depth, par),
        0 <= a < 81,
    ensures
        is_walk(cells, p),
        p[0] == a,
        p.last() == 0,
    decreases depth[a],
{
    if a == 0 {
        seq![0int]
    } else {
        lemma_cell_coords(a);
        let x = a % 9;
        let z = a / 9;
        let d = par[idx(x, z)];
        let q = step(x, z, d);
        assert(passage(cells, x, z, d));
        lemma_idx_coords(q.0, q.1);
        lemma_passage_link(cells, x, z, d);
        let rest = lemma_walk_to_root(cells, depth, par, idx(q.0, q.1));
        let p = seq![a] + rest;
        assert forall|i: int| 0 <= i < p.len() - 1 implies #[trigger] link(cells, p[i], p[i + 1]) by {
            if i > 0 {
                assert(p[i] == rest[i - 1] && p[i + 1] == rest[i]);
                assert(link(cells, rest[i - 1], rest[(i - 1) + 1]));
            }
        }
        p
    }
}

/// A walk from the corner cell 0 up the spanning tree to cell `b`.
proof fn lemma_walk_from_root(cells: Seq<u8>, depth: Seq<nat>, par: Seq<u8>, b: int) -> (p: Seq<int>)
    requires
        spanning_tree(cells, depth, par),
        walls_consistent(cells),
        0 <= b < 81,
    ensures
        is_walk(cells, p),
        p[0] == 0,
        p.last() == b,
    decreases depth[b],
{
    if b == 0 {
        seq![0int]
    } else {
        lemma_cell_coords(b);
        let x = b % 9;
        let z = b / 9;
        let d = par[idx(x, z)];
        let q = step(x, z, d);
        assert(passage(cells, x, z, d));
        lemma_idx_coords(q.0, q.1);
        lemma_link_back(cells, x, z, d);
        let rest = lemma_walk_from_root(cells, depth, par, idx(q.0, q.1));
        let p = rest.push(b);
        assert forall|i: int| 0 <= i < p.len() - 1 implies #[trigger] link(cells, p[i], p[i + 1]) by {
            if i < rest.len() - 1 {
                assert(p[i] == rest[i] && p[i + 1] == rest[i + 1]);
            }
        }
        p
    }
}

/// Two walks that meet make one.
proof fn lemma_walk_join(cells: Seq<u8>, p: Seq<int>, q: Seq<int>) -> (r: Seq<int>)
    requires
        is_walk(cells, p),
        is_walk(cells, q),
        p.last() == q[0],
    ensures
        is_walk(cells, r),
        r[0] == p[0],
        r.last() == q.last(),
{
    let r = p + q.drop_first();
    assert forall|i: int| 0 <= i < r.len() - 1 implies #[trigger] link(cells, r[i], r[i + 1]) by {
        if i < p.len() - 1 {
            assert(r[i] == p[i] && r[i + 1] == p[i + 1]);
        } else if i == p.len() - 1 {
            assert(r[i] == q[0] && r[i + 1] == q[1]);
            assert(link(cells, q[0], q[0int + 1]));
        } else {
            let j = i - p.len() + 1;
            assert(r[i] == q[j] && r[i + 1] == q[j + 1]);
        }
    }
    if q.len() == 1 {
        assert(r =~= p);
    }
    r
}

/// In every maze the generator builds, each cell can be reached from each
/// other one, so the chaser always finds its next step towards the player,
/// unless it already stands on the player.
pub proof fn lemma_chaser_always_finds_way(cells: Seq<u8>, a: int, b: int)
    requires
        well_formed(cells),
        0 <= a < 81,
        0 <= b < 81,
    ensures
        reachable(cells, a, b),
{
    let (depth, par) = choose|depth: Seq<nat>, par: Seq<u8>| spanning_tree(cells, depth, par);
    let p = lemma_walk_to_root(cells, depth, par, a);
    let q = lemma_walk_from_root(cells, depth, par, b);
    let r = lemma_walk_join(cells, p, q);
    assert(is_walk(cells, r) && r[0] == a && r.last() == b);
}

} // verus!
