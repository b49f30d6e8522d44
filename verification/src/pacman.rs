//! The maze of the dot-eating game: 31 rows of 28 tiles.
//!
//! Tiles: 0 empty, 1 wall, 2 dot, 3 power pellet, 4 ghost house. Rows 13
//! and 14 are open at both ends: a tunnel that wraps around.
use vstd::prelude::*;

verus! {

pub const ROWS: usize = 31;

pub const COLS: usize = 28;

pub struct TileMap {
    pub tiles: [[u8; 28]; 31],
    pub total_dots: u32,
}

/// The level every game starts with.
pub open spec fn level_layout() -> [[u8; 28]; 31] {
    LAYOUT
}

pub open spec fn is_dot_tile(t: u8) -> bool {
    t == 2 || t == 3
}

pub open spec fn tile(tiles: [[u8; 28]; 31], r: int, c: int) -> u8 {
    tiles@[r]@[c]
}

/// The board as rows of tiles.
pub open spec fn board(tiles: [[u8; 28]; 31]) -> Seq<Seq<u8>> {
    Seq::new(31, |r: int| tiles@[r]@)
}

/// Dots and pellets among the first `n` tiles of a row.
pub open spec fn row_dots(row: Seq<u8>, n: int) -> nat
    decreases n,
{
    if n <= 0 {
        0
    } else {
        row_dots(row, n - 1) + if is_dot_tile(row[n - 1]) {
            1nat
        } else {
            0nat
        }
    }
}

/// Dots and pellets in the first `n` rows.
pub open spec fn grid_dots(g: Seq<Seq<u8>>, n: int) -> nat
    decreases n,
{
    if n <= 0 {
        0
    } else {
        grid_dots(g, n - 1) + row_dots(g[n - 1], 28)
    }
}

/// Dots and pellets left on the whole board.
pub open spec fn dots_left(g: Seq<Seq<u8>>) -> nat {
    grid_dots(g, 31)
}

pub open spec fn on_board(row: i32, col: i32) -> bool {
    0 <= row < 31 && 0 <= col < 28
}

/// The board after eating at (row, col).
pub open spec fn eaten(g: Seq<Seq<u8>>, row: int, col: int) -> Seq<Seq<u8>> {
    g.update(row, g[row].update(col, 0u8))
}

/// A dot or a pellet lies at (row, col) of board `g`.
pub open spec fn dot_at(g: Seq<Seq<u8>>, row: int, col: int) -> bool {
    0 <= row < 31 && 0 <= col < 28 && is_dot_tile(g[row][col])
}

/// The board after trying to eat at (row, col): unchanged where nothing is
/// to be eaten.
pub open spec fn eat_at(g: Seq<Seq<u8>>, row: int, col: int) -> Seq<Seq<u8>> {
    if dot_at(g, row, col) {
        eaten(g, row, col)
    } else {
        g
    }
}

/// The board after eating at each cell of `moves` in turn.
pub open spec fn eat_all(g: Seq<Seq<u8>>, moves: Seq<(i32, i32)>) -> Seq<Seq<u8>>
    decreases moves.len(),
{
    if moves.len() == 0 {
        g
    } else {
        let m = moves.last();
        eat_at(eat_all(g, moves.drop_last()), m.0 as int, m.1 as int)
    }
}

/// How many of the eats of `moves` found something to eat (scored).
pub open spec fn hits(g: Seq<Seq<u8>>, moves: Seq<(i32, i32)>) -> nat
    decreases moves.len(),
{
    if moves.len() == 0 {
        0
    } else {
        let m = moves.last();
        hits(g, moves.drop_last()) + if dot_at(eat_all(g, moves.drop_last()), m.0 as int, m.1 as int) {
            1nat
        } else {
            0nat
        }
    }
}

/// 31 rows of 28 tiles.
pub open spec fn board_shape(g: Seq<Seq<u8>>) -> bool {
    g.len() == 31 && forall|i: int| 0 <= i < 31 ==> #[trigger] g[i].len() == 28
}

pub const LAYOUT: [[u8; 28]; 31] = [
        [1, 1, 1, 1, 1, 1, 1, 1, 1, 1, 1, 1, 1, 1, 1, 1, 1, 1, 1, 1, 1, 1, 1, 1, 1, 1, 1, 1],
        [1, 3, 2, 2, 2, 2, 2, 2, 2, 2, 2, 2, 2, 1, 1, 2, 2, 2, 2, 2, 2, 2, 2, 2, 2, 2, 3, 1],
        [1, 2, 1, 1, 1, 2, 1, 1, 1, 1, 1, 2, 1, 1, 1, 2, 1, 1, 1, 1, 1, 2, 1, 1, 1, 1, 2, 1],
        [1, 2, 1, 1, 1, 2, 1, 1, 1, 1, 1, 2, 1, 1, 1, 2, 1, 1, 1, 1, 1, 2, 1, 1, 1, 1, 2, 1],
        [1, 2, 1, 1, 1, 2, 1, 1, 1, 1, 1, 2, 1, 1, 1, 2, 1, 1, 1, 1, 1, 2, 1, 1, 1, 1, 2, 1],
        [1, 2, 2, 2, 2, 2, 2, 2, 2, 2, 2, 2, 2, 2, 2, 2, 2, 2, 2, 2, 2, 2, 2, 2, 2, 2, 2, 1],
        [1, 2, 1, 1, 1, 2, 1, 1, 2, 1, 1, 1, 1, 1, 1, 1, 1, 1, 1, 2, 1, 1, 2, 1, 1, 1, 2, 1],
        [1, 2, 1, 1, 1, 2, 1, 1, 2, 1, 1, 1, 1, 1, 1, 1, 1, 1, 1, 2, 1, 1, 2, 1, 1, 1, 2, 1],
        [1, 2, 2, 2, 2, 2, 1, 1, 2, 2, 2, 2, 2, 1, 1, 2, 2, 2, 2, 2, 1, 1, 2, 2, 2, 2, 2, 1],
        [1, 1, 1, 1, 1, 2, 1, 1, 1, 1, 1, 0, 1, 1, 1, 1, 0, 1, 1, 1, 1, 1, 2, 1, 1, 1, 1, 1],
        [1, 1, 1, 1, 1, 2, 1, 1, 1, 1, 1, 0, 1, 1, 1, 1, 0, 1, 1, 1, 1, 1, 2, 1, 1, 1, 1, 1],
        [1, 1, 1, 1, 1, 2, 1, 1, 0, 0, 0, 0, 0, 0, 0, 0, 0, 0, 0, 0, 1, 1, 2, 1, 1, 1, 1, 1],
        [1, 1, 1, 1, 1, 2, 1, 1, 0, 1, 1, 4, 4, 4, 4, 4, 4, 1, 1, 0, 1, 1, 2, 1, 1, 1, 1, 1],
        [0, 0, 0, 0, 0, 2, 0, 0, 0, 1, 4, 4, 4, 4, 4, 4, 4, 1, 0, 0, 0, 0, 2, 0, 0, 0, 0, 0],
        [0, 0, 0, 0, 0, 2, 0, 0, 0, 1, 4, 4, 4, 4, 4, 4, 4, 1, 0, 0, 0, 0, 2, 0, 0, 0, 0, 0],
        [1, 1, 1, 1, 1, 2, 1, 1, 0, 1, 1, 1, 1, 1, 1, 1, 1, 1, 0, 1, 1, 2, 1, 1, 1, 1, 1, 1],
        [1, 1, 1, 1, 1, 2, 1, 1, 0, 0, 0, 0, 0, 0, 0, 0, 0, 0, 0, 0, 1, 1, 2, 1, 1, 1, 1, 1],
        [1, 1, 1, 1, 1, 2, 1, 1, 0, 1, 1, 1, 1, 1, 1, 1, 1, 1, 1, 0, 1, 1, 2, 1, 1, 1, 1, 1],
        [1, 1, 1, 1, 1, 2, 1, 1, 0, 1, 1, 1, 1, 1, 1, 1, 1, 1, 1, 0, 1, 1, 2, 1, 1, 1, 1, 1],
        [1, 2, 2, 2, 2, 2, 2, 2, 2, 2, 2, 2, 2, 1, 1, 2, 2, 2, 2, 2, 2, 2, 2, 2, 2, 2, 2, 1],
        [1, 2, 1, 1, 1, 2, 1, 1, 1, 1, 1, 2, 1, 1, 1, 2, 1, 1, 1, 1, 1, 2, 1, 1, 1, 1, 2, 1],
        [1, 2, 1, 1, 1, 2, 1, 1, 1, 1, 1, 2, 1, 1, 1, 2, 1, 1, 1, 1, 1, 2, 1, 1, 1, 1, 2, 1],
        [1, 3, 2, 2, 1, 2, 2, 2, 2, 2, 2, 2, 2, 2, 2, 2, 2, 2, 2, 2, 2, 2, 2, 2, 1, 2, 2, 1],
        [1, 1, 1, 2, 1, 2, 1, 1, 2, 1, 1, 1, 1, 1, 1, 1, 1, 1, 1, 2, 1, 1, 2, 1, 1, 1, 1, 1],
        [1, 1, 1, 2, 1, 2, 1, 1, 2, 1, 1, 1, 1, 1, 1, 1, 1, 1, 1, 2, 1, 1, 2, 1, 1, 1, 1, 1],
        [1, 2, 2, 2, 2, 2, 2, 2, 2, 2, 2, 2, 2, 1, 1, 2, 2, 2, 2, 2, 2, 2, 2, 2, 2, 2, 2, 1],
        [1, 2, 1, 1, 1, 1, 1, 2, 1, 1, 1, 1, 1, 1, 1, 1, 1, 1, 1, 2, 1, 1, 1, 1, 1, 1, 2, 1],
        [1, 2, 1, 1, 1, 1, 1, 2, 1, 1, 1, 1, 1, 1, 1, 1, 1, 1, 1, 2, 1, 1, 1, 1, 1, 1, 2, 1],
        [1, 2, 2, 2, 2, 2, 2, 2, 2, 2, 2, 2, 2, 1, 1, 2, 2, 2, 2, 2, 2, 2, 2, 2, 2, 2, 2, 1],
        [1, 2, 1, 1, 1, 1, 1, 1, 1, 1, 1, 2, 1, 1, 1, 2, 1, 1, 1, 1, 1, 1, 1, 1, 1, 1, 2, 1],
        [1, 1, 1, 1, 1, 1, 1, 1, 1, 1, 1, 1, 1, 1, 1, 1, 1, 1, 1, 1, 1, 1, 1, 1, 1, 1, 1, 1],
    ];

proof fn lemma_row_dots_bound(row: Seq<u8>, n: int)
    requires
        0 <= n,
    ensures
        row_dots(row, n) <= n,
    decreases n,
{
    if n > 0 {
        lemma_row_dots_bound(row, n - 1);
    }
}

proof fn lemma_grid_dots_bound(g: Seq<Seq<u8>>, n: int)
    requires
        0 <= n,
    ensures
        grid_dots(g, n) <= 28 * n,
    decreases n,
{
    if n > 0 {
        lemma_grid_dots_bound(g, n - 1);
        lemma_row_dots_bound(g[n - 1], 28);
    }
}

fn count_dots(tiles: &[[u8; 28]; 31]) -> (r: u32)
    ensures
        r == dots_left(board(*tiles)),
{
    let mut total: u32 = 0;
    let mut i: usize = 0;
    while i < ROWS
        invariant
            i <= 31,
            total == grid_dots(board(*tiles), i as int),
        decreases 31 - i,
    {
        let row = tiles[i];
        let mut j: usize = 0;
        let mut in_row: u32 = 0;
        while j < COLS
            invariant
                j <= 28,
                row@ == tiles@[i as int]@,
                in_row == row_dots(row@, j as int),
            decreases 28 - j,
        {
            proof {
                lemma_row_dots_bound(row@, j as int);
            }
            let t = row[j];
            if t == 2 || t == 3 {
                in_row = in_row + 1;
            }
            j = j + 1;
        }
        proof {
            lemma_grid_dots_bound(board(*tiles), i as int);
            lemma_row_dots_bound(row@, 28);
        }
        total = total + in_row;
        i = i + 1;
    }
    total
}

impl TileMap {
    /// The starting board, with its dot count.
    pub fn new() -> (r: Self)
        ensures
            r.tiles == level_layout(),
            r.total_dots == dots_left(board(level_layout())),
    {
        let tiles = LAYOUT;
        let total_dots = count_dots(&tiles);
        TileMap { tiles, total_dots }
    }

    /// Off the board counts as wall.
    pub fn is_wall(&self, row: i32, col: i32) -> (r: bool)
        ensures
            r == (!on_board(row, col) || tile(self.tiles, row as int, col as int) == 1),
    {
        if row < 0 || row >= ROWS as i32 || col < 0 || col >= COLS as i32 {
            return true;
        }
        self.tiles[row as usize][col as usize] == 1
    }

    /// Whether (row, col) can be walked on; columns wrap around the sides.
    pub fn is_passable(&self, row: i32, col: i32) -> (r: bool)
        ensures
            r == (0 <= row < 31 && tile(self.tiles, row as int, col as int % 28) != 1),
    {
        if row < 0 || row >= ROWS as i32 {
            return false;
        }
        let c = col as i64;
        let wrapped: i64 = if c >= 0 {
            c % 28
        } else {
            let m = (-c) % 28;
            if m == 0 {
                0
            } else {
                28 - m
            }
        };
        proof {
            assert(wrapped == col as int % 28) by (nonlinear_arith)
                requires
                    c == col,
                    c >= 0 ==> wrapped == c % 28,
                    c < 0 ==> wrapped == (if (-c) % 28 == 0 {
                        0
                    } else {
                        28 - (-c) % 28
                    }),
            ;
        }
        let t = self.tiles[row as usize][wrapped as usize];
        t != 1
    }

    pub fn is_dot(&self, row: i32, col: i32) -> (r: bool)
        ensures
            r == (on_board(row, col) && is_dot_tile(tile(self.tiles, row as int, col as int))),
    {
        if row < 0 || row >= ROWS as i32 || col < 0 || col >= COLS as i32 {
            return false;
        }
        let t = self.tiles[row as usize][col as usize];
        t == 2 || t == 3
    }

    pub fn is_power(&self, row: i32, col: i32) -> (r: bool)
        ensures
            r == (on_board(row, col) && tile(self.tiles, row as int, col as int) == 3),
    {
        if row < 0 || row >= ROWS as i32 || col < 0 || col >= COLS as i32 {
            return false;
        }
        self.tiles[row as usize][col as usize] == 3
    }

    /// Eats what lies at (row, col): 10 points for a dot, 50 for a power
    /// pellet, which then leaves an empty tile; 0 and no change otherwise.
    pub fn eat_dot(&mut self, row: i32, col: i32) -> (r: u32)
        ensures
            ({
                let t = tile(old(self).tiles, row as int, col as int);
                if on_board(row, col) && is_dot_tile(t) {
                    &&& r == (if t == 2 { 10u32 } else { 50u32 })
                    &&& board(final(self).tiles) == eaten(board(old(self).tiles), row as int, col as int)
                } else {
                    &&& r == 0
                    &&& final(self).tiles == old(self).tiles
                }
            }),
            final(self).total_dots == old(self).total_dots,
            board(final(self).tiles) == eat_at(board(old(self).tiles), row as int, col as int),
            (r > 0) == dot_at(board(old(self).tiles), row as int, col as int),
    {
        if row < 0 || row >= ROWS as i32 || col < 0 || col >= COLS as i32 {
            return 0;
        }
        let r = row as usize;
        let c = col as usize;
        let t = self.tiles[r][c];
        if t == 2 || t == 3 {
            let mut line = self.tiles[r];
            line[c] = 0;
            self.tiles[r] = line;
            proof {
                assert(board(self.tiles) =~= eaten(board(old(self).tiles), row as int, col as int));
            }
            if t == 2 {
                10
            } else {
                50
            }
        } else {
            0
        }
    }

    pub fn remaining_dots(&self) -> (r: u32)
        ensures
            r == dots_left(board(self.tiles)),
    {
        count_dots(&self.tiles)
    }
}

proof fn lemma_row_dots_update(row: Seq<u8>, c: int, n: int)
    requires
        0 <= c < row.len(),
        0 <= n <= row.len(),
        is_dot_tile(row[c]),
    ensures
        row_dots(row.update(c, 0u8), n) + (if c < n { 1nat } else { 0nat }) == row_dots(row, n),
    decreases n,
{
    if n > 0 {
        lemma_row_dots_update(row, c, n - 1);
    }
}

proof fn lemma_grid_dots_update(g: Seq<Seq<u8>>, r: int, c: int, n: int)
    requires
        g.len() == 31,
        0 <= r < 31,
        g[r].len() == 28,
        0 <= c < 28,
        0 <= n <= 31,
        is_dot_tile(g[r][c]),
    ensures
        grid_dots(eaten(g, r, c), n) + (if r < n { 1nat } else { 0nat }) == grid_dots(g, n),
    decreases n,
{
    if n > 0 {
        lemma_grid_dots_update(g, r, c, n - 1);
        if n - 1 == r {
            lemma_row_dots_update(g[r], c, 28);
            assert(eaten(g, r, c)[r] == g[r].update(c, 0u8));
        } else {
            assert(eaten(g, r, c)[n - 1] == g[n - 1]);
        }
    }
}

/// Eating a dot or a pellet leaves one fewer on the board.
pub proof fn lemma_eat_counts_down(g: Seq<Seq<u8>>, row: i32, col: i32)
    requires
        g.len() == 31,
        forall|i: int| 0 <= i < 31 ==> #[trigger] g[i].len() == 28,
        on_board(row, col),
        is_dot_tile(g[row as int][col as int]),
    ensures
        dots_left(eaten(g, row as int, col as int)) + 1 == dots_left(g),
{
    lemma_grid_dots_update(g, row as int, col as int, 31);
}

/// Along any sequence of eats, the dots left and the eats that scored add
/// up to the dots at the start; the dots left never grow, and the board
/// keeps its shape.
pub proof fn lemma_dots_after_eats(g: Seq<Seq<u8>>, moves: Seq<(i32, i32)>)
    requires
        board_shape(g),
    ensures
        board_shape(eat_all(g, moves)),
        dots_left(eat_all(g, moves)) + hits(g, moves) == dots_left(g),
        dots_left(eat_all(g, moves)) <= dots_left(g),
    decreases moves.len(),
{
    if moves.len() > 0 {
        let prev = moves.drop_last();
        lemma_dots_after_eats(g, prev);
        let h = eat_all(g, prev);
        let m = moves.last();
        if dot_at(h, m.0 as int, m.1 as int) {
            lemma_eat_counts_down(h, m.0, m.1);
            assert forall|i: int| 0 <= i < 31 implies #[trigger] eaten(h, m.0 as int, m.1 as int)[i].len() == 28 by {}
        }
    }
}

/// From the starting board, the dots left after any sequence of eats are
/// the starting count less the eats that scored.
pub proof fn lemma_remaining_from_start(moves: Seq<(i32, i32)>)
    ensures
        dots_left(eat_all(board(level_layout()), moves)) + hits(board(level_layout()), moves) == dots_left(
            board(level_layout()),
        ),
{
    let g = board(level_layout());
    assert forall|i: int| 0 <= i < 31 implies #[trigger] g[i].len() == 28 by {}
    lemma_dots_after_eats(g, moves);
}

} // verus!
