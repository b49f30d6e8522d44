//! The animal-placement puzzle: an n by n board split into n zones; place
//! one animal per row, per column and per zone so that no two animals
//! touch, not even diagonally.
//!
//! Boards are generated here too: a hidden solution is drawn first, zones
//! are grown around its cells, and a board is kept when the solution is
//! the only one.
use vstd::prelude::*;

verus! {

pub const ANIMAL_KIND_COUNT: u8 = 9;

/// Two cells touch (or coincide): rows and columns differ by at most one.
pub open spec fn touching(a_row: int, a_col: int, b_row: int, b_col: int) -> bool {
    -1 <= a_row - b_row <= 1 && -1 <= a_col - b_col <= 1
}

/// Whether (a_row, a_col) and (b_row, b_col) touch or coincide.
pub fn is_adjacent(a_row: usize, a_col: usize, b_row: usize, b_col: usize) -> (r: bool)
    requires
        a_row <= i32::MAX,
        a_col <= i32::MAX,
        b_row <= i32::MAX,
        b_col <= i32::MAX,
    ensures
        r == touching(a_row as int, a_col as int, b_row as int, b_col as int),
{
    let dr = if a_row >= b_row {
        a_row - b_row
    } else {
        b_row - a_row
    };
    let dc = if a_col >= b_col {
        a_col - b_col
    } else {
        b_col - a_col
    };
    dr <= 1 && dc <= 1
}

/// A generated board: its size, difficulty, which animal is drawn, the
/// zone of every cell (row-major) and the solution mask (1 where an animal
/// goes).
#[derive(Clone)]
pub struct AnimalPuzzleSpec {
    pub size: usize,
    pub difficulty: u8,
    pub animal_kind: u8,
    pub zones: Vec<u8>,
    pub solution: Vec<u8>,
}

/// A board being played: zones, the animals placed so far (1 where one
/// stands) and the solution.
#[derive(Clone)]
pub struct AnimalPuzzleState {
    pub size: usize,
    pub zones: Vec<u8>,
    pub animals: Vec<u8>,
    pub solution: Vec<u8>,
}

/// A placed animal at cell `i` does not forbid an animal at (row, col).
pub open spec fn compatible(size: int, zones: Seq<u8>, animals: Seq<u8>, row: int, col: int, i: int) -> bool {
    animals[i] == 0 || {
        let r = i / size;
        let c = i % size;
        &&& r != row
        &&& c != col
        &&& zones[i] != zones[row * size + col]
        &&& !touching(r, c, row, col)
    }
}

pub open spec fn seq_sum(s: Seq<u8>) -> nat
    decreases s.len(),
{
    if s.len() == 0 {
        0
    } else {
        seq_sum(s.drop_last()) + s.last() as nat
    }
}

/// The placement rule: no two animals on the board share a row, a column
/// or a zone, or touch.
pub open spec fn placement_rule(size: int, zones: Seq<u8>, animals: Seq<u8>) -> bool {
    forall|i: int, j: int|
        0 <= i < size * size && 0 <= j < size * size && i != j && animals[j] != 0 ==> #[trigger] compatible(
            size,
            zones,
            animals,
            j / size,
            j % size,
            i,
        ) && #[trigger] animals[j] != 0
}

proof fn lemma_cell_row_col(row: int, col: int, size: int)
    requires
        0 <= row < size,
        0 <= col < size,
    ensures
        (row * size + col) / size == row,
        (row * size + col) % size == col,
{
    assert((row * size + col) / size == row && (row * size + col) % size == col) by (nonlinear_arith)
        requires
            0 <= row < size,
            0 <= col < size,
    ;
}

proof fn lemma_cell_split(i: int, size: int)
    requires
        0 <= i < size * size,
        size > 0,
    ensures
        0 <= i / size < size,
        0 <= i % size < size,
        i == (i / size) * size + i % size,
{
    assert(0 <= i / size < size && 0 <= i % size < size && i == (i / size) * size + i % size) by (nonlinear_arith)
        requires
            0 <= i < size * size,
            size > 0,
    ;
}

impl AnimalPuzzleState {
    /// Zones and animals cover the board.
    pub open spec fn wf(&self) -> bool {
        &&& self.size * self.size <= usize::MAX
        &&& self.size <= i32::MAX
        &&& self.zones@.len() == self.size * self.size
        &&& self.animals@.len() == self.size * self.size
    }

    /// An animal may go on (row, col): the cell is on the board and free,
    /// and no placed animal shares its row, column or zone or touches it.
    pub open spec fn valid_placement(&self, row: int, col: int) -> bool {
        &&& 0 <= row < self.size
        &&& 0 <= col < self.size
        &&& self.animals@[row * self.size + col] == 0
        &&& forall|i: int|
            0 <= i < self.size * self.size ==> #[trigger] compatible(
                self.size as int,
                self.zones@,
                self.animals@,
                row,
                col,
                i,
            )
    }

    /// An empty board of `size` by `size` cells, all in zone 0.
    pub fn new(size: usize) -> (r: Self)
        requires
            size * size <= usize::MAX,
            size <= i32::MAX,
        ensures
            r.wf(),
            r.size == size,
            r.zones@ == Seq::new((size * size) as nat, |i: int| 0u8),
            r.animals@ == Seq::new((size * size) as nat, |i: int| 0u8),
            r.solution@ == Seq::new((size * size) as nat, |i: int| 0u8),
    {
        let len = size * size;
        let r = Self { size, zones: vec![0; len], animals: vec![0; len], solution: vec![0; len] };
        assert(r.zones@ =~= Seq::new((size * size) as nat, |i: int| 0u8));
        assert(r.animals@ =~= Seq::new((size * size) as nat, |i: int| 0u8));
        assert(r.solution@ =~= Seq::new((size * size) as nat, |i: int| 0u8));
        r
    }

    /// A fresh game of a generated board: its zones and solution, no
    /// animals yet.
    pub fn from_spec(spec: &AnimalPuzzleSpec) -> (r: Self)
        requires
            spec.size * spec.size <= usize::MAX,
            spec.size <= i32::MAX,
            spec.zones@.len() == spec.size * spec.size,
        ensures
            r.wf(),
            r.size == spec.size,
            r.zones@ == spec.zones@,
            r.solution@ == spec.solution@,
            r.animals@ == Seq::new((spec.size * spec.size) as nat, |i: int| 0u8),
    {
        let len = spec.size * spec.size;
        let r = Self {
            size: spec.size,
            zones: spec.zones.clone(),
            animals: vec![0; len],
            solution: spec.solution.clone(),
        };
        assert(r.zones@ =~= spec.zones@);
        assert(r.solution@ =~= spec.solution@);
        assert(r.animals@ =~= Seq::new((spec.size * spec.size) as nat, |i: int| 0u8));
        r
    }

    /// The cell number of (row, col), if it is on the board.
    pub fn idx(&self, row: usize, col: usize) -> (r: Option<usize>)
        requires
            self.wf(),
        ensures
            r is Some <==> row < self.size && col < self.size,
            r matches Some(i) ==> i == row * self.size + col && i < self.size * self.size,
    {
        if row < self.size && col < self.size {
            proof {
                assert(row * self.size + col < self.size * self.size) by (nonlinear_arith)
                    requires
                        row < self.size,
                        col < self.size,
                ;
            }
            Some(row * self.size + col)
        } else {
            None
        }
    }

    /// Whether an animal may be placed on (row, col).
    pub fn is_valid_placement(&self, row: usize, col: usize) -> (r: bool)
        requires
            self.wf(),
        ensures
            r == self.valid_placement(row as int, col as int),
    {
        let idx = match self.idx(row, col) {
            Some(idx) => idx,
            None => return false,
        };
        if self.animals[idx] != 0 {
            return false;
        }
        let target_zone = self.zones[idx];
        let size = self.size;
        let mut r: usize = 0;
        while r < size
            invariant
                self.wf(),
                size == self.size,
                row < size,
                col < size,
                idx == row * size + col,
                target_zone == self.zones@[idx as int],
                r <= size,
                forall|i: int|
                    0 <= i < r * size ==> #[trigger] compatible(
                        size as int,
                        self.zones@,
                        self.animals@,
                        row as int,
                        col as int,
                        i,
                    ),
            decreases size - r,
        {
            let mut c: usize = 0;
            while c < size
                invariant
                    self.wf(),
                    size == self.size,
                    row < size,
                    col < size,
                    idx == row * size + col,
                    target_zone == self.zones@[idx as int],
                    r < size,
                    c <= size,
                    forall|i: int|
                        0 <= i < r * size + c ==> #[trigger] compatible(
                            size as int,
                            self.zones@,
                            self.animals@,
                            row as int,
                            col as int,
                            i,
                        ),
                decreases size - c,
            {
                proof {
                    assert(r * size + c < size * size) by (nonlinear_arith)
                        requires
                            r < size,
                            c < size,
                    ;
                    assert((r * size + c) / (size as int) == r && (r * size + c) % (size as int)
                        == c) by (nonlinear_arith)
                        requires
                            r < size,
                            c < size,
                    ;
                }
                let i = r * size + c;
                if self.animals[i] != 0 {
                    if r == row || c == col {
                        proof {
                            assert(!compatible(size as int, self.zones@, self.animals@, row as int, col as int, i as int));
                        }
                        return false;
                    }
                    if self.zones[i] == target_zone {
                        proof {
                            assert(!compatible(size as int, self.zones@, self.animals@, row as int, col as int, i as int));
                        }
                        return false;
                    }
                    if is_adjacent(r, c, row, col) {
                        proof {
                            assert(!compatible(size as int, self.zones@, self.animals@, row as int, col as int, i as int));
                        }
                        return false;
                    }
                }
                c = c + 1;
            }
            proof {
                assert((r + 1) * size == r * size + size) by (nonlinear_arith);
            }
            r = r + 1;
        }
        true
    }

    /// Places an animal on (row, col), or takes away the one standing
    /// there. Returns whether the board changed.
    pub fn toggle(&mut self, row: usize, col: usize) -> (changed: bool)
        requires
            old(self).wf(),
        ensures
            final(self).wf(),
            final(self).size == old(self).size,
            final(self).zones@ == old(self).zones@,
            final(self).solution@ == old(self).solution@,
            ({
                let i = row * old(self).size + col;
                if !(row < old(self).size && col < old(self).size) {
                    !changed && final(self).animals@ == old(self).animals@
                } else if old(self).animals@[i] != 0 {
                    changed && final(self).animals@ == old(self).animals@.update(i, 0u8)
                } else if old(self).valid_placement(row as int, col as int) {
                    changed && final(self).animals@ == old(self).animals@.update(i, 1u8)
                } else {
                    !changed && final(self).animals@ == old(self).animals@
                }
            }),
            placement_rule(old(self).size as int, old(self).zones@, old(self).animals@) ==> placement_rule(
                final(self).size as int,
                final(self).zones@,
                final(self).animals@,
            ),
    {
        let ghost size = self.size as int;
        let ghost z = self.zones@;
        let ghost a0 = self.animals@;
        let idx = match self.idx(row, col) {
            Some(idx) => idx,
            None => return false,
        };
        if self.animals[idx] != 0 {
            self.animals[idx] = 0;
            proof {
                if placement_rule(size, z, a0) {
                    let a1 = self.animals@;
                    assert forall|i: int, j: int|
                        0 <= i < size * size && 0 <= j < size * size && i != j && a1[j] != 0 implies #[trigger] compatible(
                        size,
                        z,
                        a1,
                        j / size,
                        j % size,
                        i,
                    ) && #[trigger] a1[j] != 0 by {
                        assert(compatible(size, z, a0, j / size, j % size, i) && a0[j] != 0);
                    }
                }
            }
            return true;
        }
        if !self.is_valid_placement(row, col) {
            return false;
        }
        self.animals[idx] = 1;
        proof {
            if placement_rule(size, z, a0) {
                let a1 = self.animals@;
                lemma_cell_row_col(row as int, col as int, size);
                assert forall|i: int, j: int|
                    0 <= i < size * size && 0 <= j < size * size && i != j && a1[j] != 0 implies #[trigger] compatible(
                    size,
                    z,
                    a1,
                    j / size,
                    j % size,
                    i,
                ) && #[trigger] a1[j] != 0 by {
                    if j == idx {
                        assert(compatible(size, z, a0, row as int, col as int, i));
                    } else if i == idx {
                        assert(a0[j] != 0);
                        lemma_cell_split(j, size);
                        assert(compatible(size, z, a0, row as int, col as int, j));
                    } else {
                        assert(compatible(size, z, a0, j / size, j % size, i) && a0[j] != 0);
                    }
                }
            }
        }
        true
    }

    /// Whether an animal stands on (row, col); false off the board.
    pub fn is_occupied(&self, row: usize, col: usize) -> (r: bool)
        requires
            self.wf(),
        ensures
            r == (row < self.size && col < self.size && self.animals@[row * self.size + col]
                != 0),
    {
        match self.idx(row, col) {
            Some(i) => self.animals[i] != 0,
            None => false,
        }
    }

    /// The number of animals on the board (the sum of the cells).
    pub fn count_placed(&self) -> (r: u32)
        requires
            seq_sum(self.animals@) <= u32::MAX,
        ensures
            r == seq_sum(self.animals@),
    {
        let mut total: u32 = 0;
        let mut i: usize = 0;
        while i < self.animals.len()
            invariant
                i <= self.animals@.len(),
                seq_sum(self.animals@) <= u32::MAX,
                total == seq_sum(self.animals@.subrange(0, i as int)),
            decreases self.animals@.len() - i,
        {
            proof {
                let p = self.animals@.subrange(0, i as int + 1);
                assert(p.drop_last() == self.animals@.subrange(0, i as int));
                lemma_seq_sum_prefix(self.animals@, i as int + 1);
            }
            total = total + self.animals[i] as u32;
            i = i + 1;
        }
        proof {
            assert(self.animals@.subrange(0, i as int) == self.animals@);
        }
        total
    }

    /// Solved when the animals stand exactly where the solution has them.
    pub fn is_solved(&self) -> (r: bool)
        ensures
            r == (self.animals@ == self.solution@),
    {
        let r = self.animals == self.solution;
        proof {
            if r {
                assert(self.animals@ =~= self.solution@);
            }
        }
        r
    }

    /// Takes all animals off the board.
    pub fn reset(&mut self)
        ensures
            final(self).size == old(self).size,
            final(self).zones@ == old(self).zones@,
            final(self).solution@ == old(self).solution@,
            final(self).animals@ == Seq::new(old(self).animals@.len(), |i: int| 0u8),
    {
        let n = self.animals.len();
        let mut i: usize = 0;
        while i < n
            invariant
                n == self.animals@.len(),
                i <= n,
                self.size == old(self).size,
                self.zones@ == old(self).zones@,
                self.solution@ == old(self).solution@,
                forall|j: int| 0 <= j < i ==> self.animals@[j] == 0,
            decreases n - i,
        {
            self.animals[i] = 0;
            i = i + 1;
        }
        assert(self.animals@ =~= Seq::new(old(self).animals@.len(), |i: int| 0u8));
    }

    /// Replaces the zones, if the new ones cover the board exactly.
    pub fn set_zones(&mut self, zones: Vec<u8>) -> (r: bool)
        requires
            old(self).wf(),
        ensures
            final(self).wf(),
            r == (zones@.len() == old(self).size * old(self).size),
            final(self).zones@ == (if r { zones@ } else { old(self).zones@ }),
            final(self).animals@ == old(self).animals@,
            final(self).solution@ == old(self).solution@,
            final(self).size == old(self).size,
    {
        if zones.len() != self.size * self.size {
            return false;
        }
        self.zones = zones;
        true
    }

    /// Replaces the solution, if the new one covers the board exactly.
    pub fn set_solution(&mut self, solution: Vec<u8>) -> (r: bool)
        requires
            old(self).wf(),
        ensures
            final(self).wf(),
            r == (solution@.len() == old(self).size * old(self).size),
            final(self).solution@ == (if r { solution@ } else { old(self).solution@ }),
            final(self).animals@ == old(self).animals@,
            final(self).zones@ == old(self).zones@,
            final(self).size == old(self).size,
    {
        if solution.len() != self.size * self.size {
            return false;
        }
        self.solution = solution;
        true
    }
}

proof fn lemma_seq_sum_prefix(s: Seq<u8>, n: int)
    requires
        0 <= n <= s.len(),
    ensures
        seq_sum(s.subrange(0, n)) <= seq_sum(s),
    decreases s.len() - n,
{
    if n < s.len() {
        lemma_seq_sum_prefix(s, n + 1);
        assert(s.subrange(0, n + 1).drop_last() == s.subrange(0, n));
    } else {
        assert(s.subrange(0, n) == s);
    }
}

/// Toggling the same free cell twice, where the first toggle placed an
/// animal, leaves the board as it was.
pub proof fn lemma_toggle_twice(animals: Seq<u8>, i: int)
    requires
        0 <= i < animals.len(),
        animals[i] == 0,
    ensures
        animals.update(i, 1u8).update(i, 0u8) == animals,
{
    assert(animals.update(i, 1u8).update(i, 0u8) =~= animals);
}


/// The board generator's xorshift64 random source.
#[derive(Clone, Copy)]
pub struct Rng(pub u64);

/// One xorshift64 step (shifts 13, 7, 17).
pub open spec fn xorshift(x: u64) -> u64 {
    let a = x ^ (x << 13u64);
    let b = a ^ (a >> 7u64);
    b ^ (b << 17u64)
}

pub open spec fn swap_seq(s: Seq<usize>, i: int, j: int) -> Seq<usize> {
    s.update(i, s[j]).update(j, s[i])
}

/// The Fisher-Yates shuffle of the first `n` entries of `s` driven by the
/// generator from state `st`: the result and the final state.
pub open spec fn fisher_yates(s: Seq<usize>, st: u64, n: nat) -> (Seq<usize>, u64)
    decreases n,
{
    if n <= 1 {
        (s, st)
    } else {
        let st2 = xorshift(st);
        let j = (st2 % (n as u64)) as int;
        fisher_yates(swap_seq(s, n - 1, j), st2, (n - 1) as nat)
    }
}

impl Rng {
    /// A generator started from `seed` (forced odd, then mixed).
    pub fn from_seed(seed: u64) -> (r: Self)
        ensures
            r.0 == (seed | 1) ^ 0x9e3779b97f4a7c15u64,
    {
        Rng((seed | 1) ^ 0x9e3779b97f4a7c15)
    }

    pub fn next_u64(&mut self) -> (r: u64)
        ensures
            r == xorshift(old(self).0),
            final(self).0 == r,
    {
        let mut x = self.0;
        x = x ^ (x << 13u64);
        x = x ^ (x >> 7u64);
        x = x ^ (x << 17u64);
        self.0 = x;
        x
    }

    /// A number below `upper` (0, without a draw, for `upper` 0).
    pub fn gen_range(&mut self, upper: usize) -> (r: usize)
        ensures
            upper == 0 ==> r == 0 && final(self).0 == old(self).0,
            upper > 0 ==> final(self).0 == xorshift(old(self).0) && r == xorshift(old(self).0)
                % (upper as u64) && r < upper,
    {
        if upper == 0 {
            0
        } else {
            (self.next_u64() % upper as u64) as usize
        }
    }

    /// A number from `-spread` to `spread` (0, without a draw, for a spread
    /// of 0 or less).
    pub fn gen_signed(&mut self, spread: i32) -> (r: i32)
        requires
            spread < 0x4000_0000,
        ensures
            spread <= 0 ==> r == 0 && final(self).0 == old(self).0,
            spread > 0 ==> final(self).0 == xorshift(old(self).0) && r == (xorshift(old(self).0)
                % ((spread as u64) * 2 + 1) as u64) as int - spread,
            -spread <= r <= spread || spread <= 0,
    {
        if spread <= 0 {
            0
        } else {
            let width = (spread as u64) * 2 + 1;
            (self.next_u64() % width) as i32 - spread
        }
    }

    /// Shuffles `v` in place (Fisher-Yates, from the back).
    pub fn shuffle(&mut self, v: &mut Vec<usize>)
        ensures
            (final(v)@, final(self).0) == fisher_yates(old(v)@, old(self).0, old(v)@.len()),
    {
        let mut i = v.len();
        while i > 1
            invariant
                i <= v@.len(),
                v@.len() == old(v)@.len(),
                fisher_yates(v@, self.0, i as nat) == fisher_yates(old(v)@, old(self).0, old(v)@.len()),
            decreases i,
        {
            let j = self.gen_range(i);
            let a = v[i - 1];
            let b = v[j];
            v[i - 1] = b;
            v[j] = a;
            i = i - 1;
        }
    }
}

proof fn lemma_fisher_yates_contains(s: Seq<usize>, st: u64, n: nat)
    requires
        n <= s.len(),
        s.len() <= u64::MAX,
    ensures
        fisher_yates(s, st, n).0.len() == s.len(),
        forall|x: usize| #[trigger] fisher_yates(s, st, n).0.contains(x) <==> s.contains(x),
    decreases n,
{
    if n > 1 {
        let st2 = xorshift(st);
        let j = (st2 % (n as u64)) as int;
        let t = swap_seq(s, n - 1, j);
        assert(0 <= j < n);
        assert forall|x: usize| #[trigger] t.contains(x) <==> s.contains(x) by {
            if s.contains(x) {
                let k = choose|k: int| 0 <= k < s.len() && s[k] == x;
                if k == n - 1 {
                    assert(t[j] == x);
                } else if k == j {
                    assert(t[n - 1] == x);
                } else {
                    assert(t[k] == x);
                }
            }
            if t.contains(x) {
                let k = choose|k: int| 0 <= k < t.len() && t[k] == x;
                if k == n - 1 {
                    assert(s[j] == x);
                } else if k == j {
                    assert(s[n - 1] == x);
                } else {
                    assert(s[k] == x);
                }
            }
        }
        lemma_fisher_yates_contains(t, st2, (n - 1) as nat);
    }
}

/// The solution mask: 1 at the column chosen in each row, 0 elsewhere.
pub open spec fn mask_of(cols: Seq<usize>, size: int) -> Seq<u8> {
    Seq::new(
        (size * size) as nat,
        |i: int|
            if i / size < cols.len() && cols[i / size] == i % size {
                1u8
            } else {
                0u8
            },
    )
}

pub fn solution_mask_from_cols(cols: &Vec<usize>, size: usize) -> (mask: Vec<u8>)
    requires
        size * size <= usize::MAX,
        cols@.len() <= size,
        forall|r: int| 0 <= r < cols@.len() ==> #[trigger] cols@[r] < size,
    ensures
        mask@ == mask_of(cols@, size as int),
{
    let mut mask: Vec<u8> = vec![0; size * size];
    let mut row: usize = 0;
    while row < cols.len()
        invariant
            size * size <= usize::MAX,
            cols@.len() <= size,
            forall|r: int| 0 <= r < cols@.len() ==> #[trigger] cols@[r] < size,
            row <= cols@.len(),
            mask@.len() == size * size,
            forall|i: int|
                0 <= i < size * size ==> #[trigger] mask@[i] == (if i / (size as int) < row
                    && cols@[i / (size as int)] == i % (size as int) {
                    1u8
                } else {
                    0u8
                }),
        decreases cols@.len() - row,
    {
        let col = cols[row];
        proof {
            assert(row * size + col < size * size) by (nonlinear_arith)
                requires
                    row < size,
                    col < size,
            ;
        }
        let k = row * size + col;
        mask[k] = 1;
        proof {
            assert forall|i: int| 0 <= i < size * size implies #[trigger] mask@[i] == (if i / (
            size as int) < row + 1 && cols@[i / (size as int)] == i % (size as int) {
                1u8
            } else {
                0u8
            }) by {
                assert((k as int) / (size as int) == row && (k as int) % (size as int) == col) by (nonlinear_arith)
                    requires
                        k == row * size + col,
                        col < size,
                ;
                if i / (size as int) == row && cols@[row as int] == i % (size as int) {
                    assert(i == (i / (size as int)) * size + i % (size as int)) by (nonlinear_arith)
                        requires
                            size > 0,
                    ;
                }
            }
        }
        row = row + 1;
    }
    assert(mask@ =~= mask_of(cols@, size as int));
    mask
}

/// The first `n` rows of `cols` hold a valid partial placement: columns on
/// the board, pairwise distinct and never touching.
pub open spec fn cols_ok(cols: Seq<usize>, size: int, n: int) -> bool {
    &&& forall|r: int| 0 <= r < n ==> #[trigger] cols[r] < size
    &&& forall|r1: int, r2: int|
        0 <= r1 < r2 < n ==> #[trigger] cols[r1] != #[trigger] cols[r2] && !touching(
            r1,
            cols[r1] as int,
            r2,
            cols[r2] as int,
        )
}

/// One animal per row and column, none touching: `cols[r]` is the column
/// of row `r`'s animal.
pub open spec fn valid_solution(cols: Seq<usize>, size: int) -> bool {
    cols.len() == size && cols_ok(cols, size, size)
}

pub open spec fn used_by(cols: Seq<usize>, row: int, c: int) -> bool {
    exists|r: int| 0 <= r < row && #[trigger] cols[r] == c
}

/// Column `c` may take the row after `prefix`: no earlier row uses it and
/// it touches no earlier animal.
pub open spec fn col_fits(prefix: Seq<usize>, c: usize) -> bool {
    &&& forall|r: int| 0 <= r < prefix.len() ==> #[trigger] prefix[r] != c
    &&& forall|r: int| 0 <= r < prefix.len() ==> !touching(prefix.len() as int, c as int, r, #[trigger] prefix[r] as int)
}

/// The depth-first search for a hidden solution extending `prefix`, from
/// generator state `st`: each row shuffles the columns and tries them in
/// that order. The solution found (if any) and the state after.
pub open spec fn solution_search(size: int, prefix: Seq<usize>, st: u64) -> (Option<Seq<usize>>, u64)
    decreases size - prefix.len(), 1int, 0int,
{
    if prefix.len() >= size {
        (Some(prefix), st)
    } else {
        let f = fisher_yates(Seq::new(size as nat, |i: int| i as usize), st, size as nat);
        solution_try(size, prefix, f.0, 0, f.1)
    }
}

/// Columns `cands[k..]` tried in turn for the row after `prefix`.
pub open spec fn solution_try(size: int, prefix: Seq<usize>, cands: Seq<usize>, k: int, st: u64) -> (
    Option<Seq<usize>>,
    u64,
)
    decreases size - prefix.len(), 0int, cands.len() - k,
{
    if k < 0 || k >= cands.len() || prefix.len() >= size {
        (None, st)
    } else if col_fits(prefix, cands[k]) {
        let r = solution_search(size, prefix.push(cands[k]), st);
        if r.0 is Some {
            r
        } else {
            solution_try(size, prefix, cands, k + 1, r.1)
        }
    } else {
        solution_try(size, prefix, cands, k + 1, st)
    }
}

fn solution_backtrack(
    row: usize,
    size: usize,
    rng: &mut Rng,
    cols: &mut Vec<usize>,
    used_cols: &mut Vec<bool>,
) -> (found: bool)
    requires
        size <= i32::MAX,
        row <= size,
        old(cols)@.len() == size,
        old(used_cols)@.len() == size,
        cols_ok(old(cols)@, size as int, row as int),
        forall|c: int| 0 <= c < size ==> #[trigger] old(used_cols)@[c] == used_by(old(cols)@, row as int, c),
    ensures
        final(cols)@.len() == size,
        final(used_cols)@.len() == size,
        found ==> valid_solution(final(cols)@, size as int),
        !found ==> forall|s: Seq<usize>|
            valid_solution(s, size as int) ==> #[trigger] s.subrange(0, row as int) != old(cols)@.subrange(0, row as int),
        !found ==> final(cols)@.subrange(0, row as int) == old(cols)@.subrange(0, row as int),
        !found ==> final(used_cols)@ == old(used_cols)@,
        found == solution_search(size as int, old(cols)@.subrange(0, row as int), old(rng).0).0 is Some,
        found ==> solution_search(size as int, old(cols)@.subrange(0, row as int), old(rng).0).0 == Some(final(cols)@),
        final(rng).0 == solution_search(size as int, old(cols)@.subrange(0, row as int), old(rng).0).1,
    decreases size - row,
{
    let ghost tgt = solution_search(size as int, cols@.subrange(0, row as int), rng.0);
    if row == size {
        assert(cols@.subrange(0, row as int) =~= cols@);
        return true;
    }
    let mut candidates: Vec<usize> = Vec::new();
    let mut k: usize = 0;
    while k < size
        invariant
            k <= size,
            candidates@ == Seq::new(k as nat, |i: int| i as usize),
        decreases size - k,
    {
        candidates.push(k);
        k = k + 1;
    }
    let ghost cand0 = candidates@;
    rng.shuffle(&mut candidates);
    proof {
        lemma_fisher_yates_contains(cand0, old(rng).0, cand0.len());
        assert forall|c: usize| c < size implies #[trigger] candidates@.contains(c) by {
            assert(cand0[c as int] == c);
        }
        assert forall|j: int| 0 <= j < size implies #[trigger] candidates@[j] < size by {
            assert(candidates@.contains(candidates@[j]));
            assert(cand0.contains(candidates@[j]));
        }
    }
    let ghost prefix = cols@.subrange(0, row as int);
    assert(cand0 =~= Seq::new(size as nat, |i: int| i as usize));
    assert(solution_try(size as int, prefix, candidates@, 0, rng.0) == tgt);
    let mut k: usize = 0;
    while k < size
        invariant
            solution_try(size as int, prefix, candidates@, k as int, rng.0) == tgt,
            tgt == solution_search(size as int, old(cols)@.subrange(0, row as int), old(rng).0),
            prefix.len() == row,
            size <= i32::MAX,
            row < size,
            k <= size,
            candidates@.len() == size,
            forall|c: usize| c < size ==> #[trigger] candidates@.contains(c),
            forall|j: int| 0 <= j < size ==> #[trigger] candidates@[j] < size,
            cols@.len() == size,
            used_cols@.len() == size,
            cols@.subrange(0, row as int) == prefix,
            prefix == old(cols)@.subrange(0, row as int),
            used_cols@ == old(used_cols)@,
            cols_ok(cols@, size as int, row as int),
            forall|c: int| 0 <= c < size ==> #[trigger] used_cols@[c] == used_by(cols@, row as int, c),
            forall|j: int, s: Seq<usize>|
                0 <= j < k && valid_solution(s, size as int) && #[trigger] s.subrange(0, row as int)
                    == prefix ==> s[row as int] != #[trigger] candidates@[j],
        decreases size - k,
    {
        let col = candidates[k];
        let ghost cols_before = cols@;
        let ghost st_k = rng.0;
        proof {
            assert forall|r: int| 0 <= r < row implies #[trigger] prefix[r] == cols@[r] by {}
        }
        if !used_cols[col] {
            let mut ok = true;
            let mut prev_row: usize = 0;
            while prev_row < row
                invariant
                    row < size,
                    size <= i32::MAX,
                    col < size,
                    prev_row <= row,
                    cols@.len() == size,
                    cols@ == cols_before,
                    cols_ok(cols@, size as int, row as int),
                    ok == forall|r: int| 0 <= r < prev_row ==> !touching(
                        row as int,
                        col as int,
                        r,
                        #[trigger] cols@[r] as int,
                    ),
                decreases row - prev_row,
            {
                if is_adjacent(row, col, prev_row, cols[prev_row]) {
                    ok = false;
                }
                prev_row = prev_row + 1;
            }
            if !ok {
                proof {
                    assert(!col_fits(prefix, col)) by {
                        let r = choose|r: int| 0 <= r < row && touching(row as int, col as int, r, #[trigger] cols@[r] as int);
                        assert(prefix[r] == cols@[r]);
                    }
                }
            }
            if ok {
                used_cols[col] = true;
                cols[row] = col;
                proof {
                    assert(cols@.subrange(0, row as int) == prefix);
                    assert forall|c: int| 0 <= c < size implies #[trigger] used_cols@[c] == used_by(
                        cols@,
                        row as int + 1,
                        c,
                    ) by {
                        if used_by(cols_before, row as int, c) {
                            let r = choose|r: int| 0 <= r < row && #[trigger] cols_before[r] == c;
                            assert(cols@[r] == c);
                        }
                        if used_by(cols@, row as int + 1, c) && c != col {
                            let r = choose|r: int| 0 <= r < row + 1 && #[trigger] cols@[r] == c;
                            assert(cols_before[r] == c);
                        }
                    }
                    assert forall|r1: int, r2: int|
                        0 <= r1 < r2 < row + 1 implies #[trigger] cols@[r1] != #[trigger] cols@[r2]
                        && !touching(r1, cols@[r1] as int, r2, cols@[r2] as int) by {
                        if r2 == row {
                            assert(!used_by(cols_before, row as int, col as int));
                            assert(cols_before[r1] == cols@[r1]);
                        }
                    }
                }
                let ghost cols_call = cols@;
                proof {
                    assert(col_fits(prefix, col)) by {
                        assert(!used_by(cols_before, row as int, col as int));
                        assert forall|r: int| 0 <= r < prefix.len() implies #[trigger] prefix[r] != col by {
                            assert(prefix[r] == cols_before[r]);
                        }
                        assert forall|r: int| 0 <= r < prefix.len() implies !touching(
                            prefix.len() as int,
                            col as int,
                            r,
                            #[trigger] prefix[r] as int,
                        ) by {
                            assert(prefix[r] == cols_before[r]);
                        }
                    }
                    assert(cols_call.subrange(0, row as int + 1) =~= prefix.push(col));
                }
                let found = solution_backtrack(row + 1, size, rng, cols, used_cols);
                if found {
                    return true;
                }
                used_cols[col] = false;
                proof {
                    assert(cols@.subrange(0, row as int) == prefix) by {
                        assert(cols@.subrange(0, row as int + 1).subrange(0, row as int) == cols@.subrange(0, row as int));
                    }
                    assert(used_cols@ =~= old(used_cols)@) by {
                        assert(!used_by(cols_before, row as int, col as int));
                    }
                    assert forall|c: int| 0 <= c < size implies #[trigger] used_cols@[c] == used_by(
                        cols@,
                        row as int,
                        c,
                    ) by {
                        if used_by(cols@, row as int, c) {
                            let r = choose|r: int| 0 <= r < row && #[trigger] cols@[r] == c;
                            assert(cols@.subrange(0, row as int)[r] == c);
                            assert(cols_before[r] == c);
                        }
                        if used_by(cols_before, row as int, c) {
                            let r = choose|r: int| 0 <= r < row && #[trigger] cols_before[r] == c;
                            assert(prefix[r] == c);
                            assert(cols@.subrange(0, row as int)[r] == c);
                        }
                    }
                    assert forall|r: int| 0 <= r < row implies #[trigger] cols@[r] == cols_before[r] by {
                        assert(cols@.subrange(0, row as int)[r] == prefix[r]);
                    }
                    assert forall|s: Seq<usize>|
                        valid_solution(s, size as int) && #[trigger] s.subrange(0, row as int)
                            == prefix implies s[row as int] != col by {
                        if s[row as int] == col {
                            assert(s.subrange(0, row as int + 1) =~= cols_call.subrange(0, row as int + 1)) by {
                                assert forall|i: int| 0 <= i < row + 1 implies #[trigger] s.subrange(0, row as int + 1)[i] == cols_call.subrange(0, row as int + 1)[i] by {
                                    if i < row {
                                        assert(s.subrange(0, row as int)[i] == prefix[i]);
                                    }
                                }
                            }
                        }
                    }
                }
            } else {
                proof {
                    assert forall|s: Seq<usize>|
                        valid_solution(s, size as int) && #[trigger] s.subrange(0, row as int)
                            == prefix implies s[row as int] != col by {
                        if s[row as int] == col {
                            let r = choose|r: int| 0 <= r < row && touching(row as int, col as int, r, #[trigger] cols@[r] as int);
                            assert(s[r] == prefix[r]);
                        }
                    }
                }
            }
        } else {
            proof {
                assert forall|s: Seq<usize>|
                    valid_solution(s, size as int) && #[trigger] s.subrange(0, row as int)
                        == prefix implies s[row as int] != col by {
                    if s[row as int] == col {
                        let r = choose|r: int| 0 <= r < row && #[trigger] cols@[r] == col as int;
                        assert(s[r] == prefix[r]);
                    }
                }
                assert(!col_fits(prefix, col)) by {
                    let r = choose|r: int| 0 <= r < row && #[trigger] cols@[r] == col as int;
                    assert(prefix[r] == cols@[r]);
                }
            }
        }
        k = k + 1;
    }
    proof {
        assert forall|s: Seq<usize>|
            valid_solution(s, size as int) implies #[trigger] s.subrange(0, row as int) != old(cols)@.subrange(
            0,
            row as int,
        ) by {
            if s.subrange(0, row as int) == prefix {
                let c = s[row as int];
                assert(candidates@.contains(c));
                let j = choose|j: int| 0 <= j < size && candidates@[j] == c;
            }
        }
    }
    false
}

/// Draws a hidden solution: a column for each row, no two sharing a column
/// or touching. None exactly when no such placement exists.
pub fn generate_solution_cols(size: usize, rng: &mut Rng) -> (r: Option<Vec<usize>>)
    requires
        size <= i32::MAX,
    ensures
        r matches Some(cols) ==> valid_solution(cols@, size as int),
        r is None ==> forall|s: Seq<usize>| !valid_solution(s, size as int),
        match r {
            Some(cols) => solution_search(size as int, Seq::empty(), old(rng).0).0 == Some(cols@),
            None => solution_search(size as int, Seq::empty(), old(rng).0).0 is None,
        },
        final(rng).0 == solution_search(size as int, Seq::empty(), old(rng).0).1,
{
    let mut cols: Vec<usize> = Vec::new();
    let mut used_cols: Vec<bool> = Vec::new();
    let mut k: usize = 0;
    while k < size
        invariant
            k <= size,
            cols@.len() == k,
            used_cols@.len() == k,
            forall|c: int| 0 <= c < k ==> #[trigger] used_cols@[c] == false,
        decreases size - k,
    {
        cols.push(usize::MAX);
        used_cols.push(false);
        k = k + 1;
    }
    assert(cols@.subrange(0, 0) =~= Seq::<usize>::empty());
    if solution_backtrack(0, size, rng, &mut cols, &mut used_cols) {
        Some(cols)
    } else {
        proof {
            assert forall|s: Seq<usize>| !valid_solution(s, size as int) by {
                if valid_solution(s, size as int) {
                    assert(s.subrange(0, 0) =~= cols@.subrange(0, 0));
                }
            }
        }
        None
    }
}

/// Column `col` may take the next row after `prefix`: on the board, in a
/// zone below `size` that no earlier row uses, in a column no earlier row
/// uses, touching no earlier animal.
pub open spec fn can_place(zones: Seq<u8>, size: int, prefix: Seq<usize>, col: int) -> bool {
    let row = prefix.len() as int;
    let zone = zones[row * size + col];
    &&& 0 <= col < size
    &&& zone < size
    &&& forall|r: int| 0 <= r < row ==> #[trigger] prefix[r] != col
    &&& forall|r: int| 0 <= r < row ==> zones[r * size + #[trigger] prefix[r]] != zone
    &&& forall|r: int| 0 <= r < row ==> !touching(row, col, r, #[trigger] prefix[r] as int)
}

/// The number of ways to complete `prefix` into a full solution, counting
/// only the choices of columns `c` and beyond for its next row.
pub open spec fn completions(zones: Seq<u8>, size: int, prefix: Seq<usize>, c: int) -> nat
    decreases size - prefix.len(), size - c,
{
    if prefix.len() >= size {
        1
    } else if c >= size || c < 0 {
        0
    } else {
        (if can_place(zones, size, prefix, c) {
            completions(zones, size, prefix.push(c as usize), 0)
        } else {
            0
        }) + completions(zones, size, prefix, c + 1)
    }
}

/// The number of solutions of a board with these zones.
pub open spec fn solution_count(zones: Seq<u8>, size: int) -> nat {
    completions(zones, size, Seq::empty(), 0)
}

pub open spec fn zone_used(zones: Seq<u8>, size: int, placement: Seq<usize>, row: int, z: int) -> bool {
    exists|r: int| 0 <= r < row && zones[r * size + #[trigger] placement[r]] == z
}

pub open spec fn min_nat(a: nat, b: nat) -> nat {
    if a <= b {
        a
    } else {
        b
    }
}

proof fn lemma_cell_index(r: int, c: int, size: int)
    requires
        0 <= r < size,
        0 <= c < size,
    ensures
        0 <= r * size + c < size * size,
{
    assert(r * size + c < size * size) by (nonlinear_arith)
        requires
            0 <= r < size,
            0 <= c < size,
    ;
    assert(0 <= r * size) by (nonlinear_arith)
        requires
            0 <= r,
            0 <= size,
    ;
}

fn count_backtrack(
    row: usize,
    size: usize,
    zones: &Vec<u8>,
    used_cols: &mut Vec<bool>,
    used_zones: &mut Vec<bool>,
    placement: &mut Vec<usize>,
    limit: usize,
    count: &mut usize,
)
    requires
        size <= i32::MAX,
        size * size <= usize::MAX,
        zones@.len() == size * size,
        row <= size,
        old(used_cols)@.len() == size,
        old(used_zones)@.len() == size,
        old(placement)@.len() == size,
        forall|r: int| 0 <= r < row ==> #[trigger] old(placement)@[r] < size,
        forall|c: int| 0 <= c < size ==> #[trigger] old(used_cols)@[c] == used_by(old(placement)@, row as int, c),
        forall|z: int| 0 <= z < size ==> #[trigger] old(used_zones)@[z] == zone_used(zones@, size as int, old(placement)@, row as int, z),
        row < size ==> *old(count) < limit,
        *old(count) < usize::MAX,
    ensures
        final(used_cols)@ == old(used_cols)@,
        final(used_zones)@ == old(used_zones)@,
        final(placement)@.len() == size,
        final(placement)@.subrange(0, row as int) == old(placement)@.subrange(0, row as int),
        row == size ==> *final(count) == *old(count) + 1,
        row < size ==> *final(count) == min_nat(
            (*old(count) + completions(zones@, size as int, old(placement)@.subrange(0, row as int), 0)) as nat,
            limit as nat,
        ),
    decreases size - row,
{
    if *count >= limit || row == size {
        if row == size {
            *count = *count + 1;
        }
        return;
    }
    let ghost prefix = placement@.subrange(0, row as int);
    let ghost c0 = *count;
    let mut col: usize = 0;
    while col < size
        invariant
            size <= i32::MAX,
            size * size <= usize::MAX,
            zones@.len() == size * size,
            row < size,
            col <= size,
            used_cols@ == old(used_cols)@,
            used_zones@ == old(used_zones)@,
            used_cols@.len() == size,
            used_zones@.len() == size,
            placement@.len() == size,
            placement@.subrange(0, row as int) == prefix,
            prefix == old(placement)@.subrange(0, row as int),
            forall|r: int| 0 <= r < row ==> #[trigger] placement@[r] < size,
            forall|c: int| 0 <= c < size ==> #[trigger] used_cols@[c] == used_by(placement@, row as int, c),
            forall|z: int| 0 <= z < size ==> #[trigger] used_zones@[z] == zone_used(zones@, size as int, placement@, row as int, z),
            *count < limit,
            c0 == *old(count),
            min_nat((*count + completions(zones@, size as int, prefix, col as int)) as nat, limit as nat)
                == min_nat((c0 + completions(zones@, size as int, prefix, 0)) as nat, limit as nat),
        decreases size - col,
    {
        assert(prefix.len() == row);
        assert forall|r: int| 0 <= r < row implies #[trigger] prefix[r] == placement@[r] by {}
        assert(completions(zones@, size as int, prefix, col as int) == (if can_place(
            zones@,
            size as int,
            prefix,
            col as int,
        ) {
            completions(zones@, size as int, prefix.push(col), 0)
        } else {
            0
        }) + completions(zones@, size as int, prefix, col as int + 1));
        if used_cols[col] {
            proof {
                let r = choose|r: int| 0 <= r < row && #[trigger] placement@[r] == col as int;
                assert(prefix[r] == col);
            }
        }
        if !used_cols[col] {
            proof {
                lemma_cell_index(row as int, col as int, size as int);
            }
            let zone = zones[row * size + col] as usize;
            if zone < size && used_zones[zone] {
                proof {
                    let r = choose|r: int| 0 <= r < row && zones@[r * size + #[trigger] placement@[r]] == zone as int;
                    assert(prefix[r] == placement@[r]);
                    assert(!can_place(zones@, size as int, prefix, col as int));
                }
            }
            if zone < size && !used_zones[zone] {
                let ghost pl0 = placement@;
                let mut ok = true;
                let mut prev_row: usize = 0;
                while prev_row < row
                    invariant
                        row < size,
                        size <= i32::MAX,
                        col < size,
                        prev_row <= row,
                        placement@ == pl0,
                        placement@.len() == size,
                        forall|r: int| 0 <= r < row ==> #[trigger] placement@[r] < size,
                        ok == forall|r: int| 0 <= r < prev_row ==> !touching(
                            row as int,
                            col as int,
                            r,
                            #[trigger] placement@[r] as int,
                        ),
                    decreases row - prev_row,
                {
                    let prev_col = placement[prev_row];
                    if is_adjacent(row, col, prev_row, prev_col) {
                        ok = false;
                    }
                    prev_row = prev_row + 1;
                }
                proof {
                    assert(!used_by(pl0, row as int, col as int));
                    assert(!zone_used(zones@, size as int, pl0, row as int, zone as int));
                    assert(zones@[row * size + col] == zone);
                    assert(ok == can_place(zones@, size as int, prefix, col as int)) by {
                        assert forall|r: int| 0 <= r < row implies #[trigger] pl0[r] == prefix[r] by {}
                        if !used_by(pl0, row as int, col as int) && !zone_used(zones@, size as int, pl0, row as int, zone as int) {
                            assert forall|r: int| 0 <= r < row implies #[trigger] prefix[r] != col by {
                                assert(pl0[r] == prefix[r]);
                            }
                            assert forall|r: int| 0 <= r < row implies zones@[r * size + #[trigger] prefix[r]] != zone by {
                                assert(pl0[r] == prefix[r]);
                            }
                        }
                    }
                }
                if ok {
                    used_cols[col] = true;
                    used_zones[zone] = true;
                    placement[row] = col;
                    let ghost pl1 = placement@;
                    proof {
                        assert(pl1.subrange(0, row as int + 1) =~= prefix.push(col));
                        assert forall|c: int| 0 <= c < size implies #[trigger] used_cols@[c] == used_by(pl1, row as int + 1, c) by {
                            if used_by(pl0, row as int, c) {
                                let r = choose|r: int| 0 <= r < row && #[trigger] pl0[r] == c;
                                assert(pl1[r] == c);
                            }
                            if used_by(pl1, row as int + 1, c) && c != col {
                                let r = choose|r: int| 0 <= r < row + 1 && #[trigger] pl1[r] == c;
                                assert(pl0[r] == c);
                            }
                        }
                        assert forall|z: int| 0 <= z < size implies #[trigger] used_zones@[z] == zone_used(zones@, size as int, pl1, row as int + 1, z) by {
                            if zone_used(zones@, size as int, pl0, row as int, z) {
                                let r = choose|r: int| 0 <= r < row && zones@[r * size + #[trigger] pl0[r]] == z;
                                assert(pl1[r] == pl0[r]);
                            }
                            if zone_used(zones@, size as int, pl1, row as int + 1, z) && z != zone {
                                let r = choose|r: int| 0 <= r < row + 1 && zones@[r * size + #[trigger] pl1[r]] == z;
                                assert(pl0[r] == pl1[r]);
                            }
                        }
                    }
                    let ghost count_before = *count;
                    count_backtrack(row + 1, size, zones, used_cols, used_zones, placement, limit, count);
                    proof {
                        assert(completions(zones@, size as int, prefix, col as int) == completions(
                            zones@,
                            size as int,
                            prefix.push(col),
                            0,
                        ) + completions(zones@, size as int, prefix, col as int + 1));
                        assert(*count == min_nat((count_before + completions(zones@, size as int, prefix.push(col), 0)) as nat, limit as nat));
                    }
                    placement[row] = usize::MAX;
                    used_zones[zone] = false;
                    used_cols[col] = false;
                    proof {
                        assert(placement@.subrange(0, row as int) =~= prefix) by {
                            assert forall|i: int| 0 <= i < row implies #[trigger] placement@[i] == prefix[i] by {
                                assert(placement@[i] == pl1.subrange(0, row as int + 1)[i]);
                            }
                        }
                        assert(used_cols@ =~= old(used_cols)@);
                        assert(used_zones@ =~= old(used_zones)@);
                        assert forall|r: int| 0 <= r < row implies #[trigger] placement@[r] == pl0[r] by {
                            assert(placement@.subrange(0, row as int)[r] == prefix[r]);
                        }
                        assert forall|c: int| 0 <= c < size implies #[trigger] used_cols@[c] == used_by(placement@, row as int, c) by {
                            if used_by(placement@, row as int, c) {
                                let r = choose|r: int| 0 <= r < row && #[trigger] placement@[r] == c;
                                assert(pl0[r] == c);
                            }
                            if used_by(pl0, row as int, c) {
                                let r = choose|r: int| 0 <= r < row && #[trigger] pl0[r] == c;
                                assert(placement@[r] == c);
                            }
                        }
                        assert forall|z: int| 0 <= z < size implies #[trigger] used_zones@[z] == zone_used(zones@, size as int, placement@, row as int, z) by {
                            if zone_used(zones@, size as int, placement@, row as int, z) {
                                let r = choose|r: int| 0 <= r < row && zones@[r * size + #[trigger] placement@[r]] == z;
                                assert(pl0[r] == placement@[r]);
                            }
                            if zone_used(zones@, size as int, pl0, row as int, z) {
                                let r = choose|r: int| 0 <= r < row && zones@[r * size + #[trigger] pl0[r]] == z;
                                assert(pl0[r] == placement@[r]);
                            }
                        }
                        assert forall|r: int| 0 <= r < row implies #[trigger] placement@[r] < size by {}
                    }
                    if *count >= limit {
                        proof {
                            assert(can_place(zones@, size as int, prefix, col as int));
                            assert(count_before + completions(zones@, size as int, prefix.push(col), 0) >= limit);
                            assert(*count == limit);
                            assert(min_nat((c0 + completions(zones@, size as int, prefix, 0)) as nat, limit as nat) == limit);
                            assert(old(placement)@.subrange(0, row as int) == prefix);
                        }
                        return;
                    }
                } else {
                }
            }
        }
        col = col + 1;
    }
}

/// How many solutions a board has, counting no further than `limit` (a
/// board of size 0 has its one empty solution whatever the limit).
pub fn count_solutions(zones: &Vec<u8>, size: usize, limit: usize) -> (r: usize)
    requires
        size <= i32::MAX,
        size * size <= usize::MAX,
        zones@.len() == size * size,
    ensures
        size == 0 ==> r == 1,
        size > 0 ==> r == min_nat(solution_count(zones@, size as int), limit as nat),
{
    let mut used_cols: Vec<bool> = Vec::new();
    let mut used_zones: Vec<bool> = Vec::new();
    let mut placement: Vec<usize> = Vec::new();
    let mut k: usize = 0;
    while k < size
        invariant
            k <= size,
            used_cols@.len() == k,
            used_zones@.len() == k,
            placement@.len() == k,
            forall|c: int| 0 <= c < k ==> #[trigger] used_cols@[c] == false,
            forall|c: int| 0 <= c < k ==> #[trigger] used_zones@[c] == false,
        decreases size - k,
    {
        used_cols.push(false);
        used_zones.push(false);
        placement.push(usize::MAX);
        k = k + 1;
    }
    let mut count: usize = 0;
    if size > 0 && limit == 0 {
        return 0;
    }
    count_backtrack(0, size, zones, &mut used_cols, &mut used_zones, &mut placement, limit, &mut count);
    proof {
        assert(placement@.subrange(0, 0) =~= Seq::<usize>::empty());
    }
    count
}

/// Contiguity weight, noise spread and attempt budget of a difficulty.
pub open spec fn profile(difficulty: u8) -> (i32, i32, usize) {
    if difficulty <= 1 {
        (3, 0, 120)
    } else if difficulty == 2 {
        (2, 2, 220)
    } else {
        (0, 4, 360)
    }
}

pub fn difficulty_profile(difficulty: u8) -> (r: (i32, i32, usize))
    ensures
        r == profile(difficulty),
{
    match difficulty {
        0 | 1 => (3, 0, 120),
        2 => (2, 2, 220),
        _ => (0, 4, 360),
    }
}

/// The `k`-th neighbour of cell `idx` (north, south, west, east), if it is
/// on the board.
pub open spec fn nbr(idx: int, size: int, k: int) -> Option<int> {
    let row = idx / size;
    let col = idx % size;
    if k == 0 {
        if row > 0 { Some((row - 1) * size + col) } else { None }
    } else if k == 1 {
        if row + 1 < size { Some((row + 1) * size + col) } else { None }
    } else if k == 2 {
        if col > 0 { Some(row * size + col - 1) } else { None }
    } else {
        if col + 1 < size { Some(row * size + col + 1) } else { None }
    }
}

/// The zones a cell may join: those of its assigned neighbours among the
/// first `k` (in the order north, south, west, east), each once, in order
/// of first appearance; only zones below 16 count.
pub open spec fn cand_list(idx: int, size: int, zones: Seq<u8>, assigned: Seq<bool>, k: int) -> Seq<usize>
    decreases k,
{
    if k <= 0 {
        Seq::empty()
    } else {
        let prev = cand_list(idx, size, zones, assigned, k - 1);
        match nbr(idx, size, k - 1) {
            Some(n) => if assigned[n] && zones[n] < 16 && !prev.contains(zones[n] as usize) {
                prev.push(zones[n] as usize)
            } else {
                prev
            },
            None => prev,
        }
    }
}

proof fn lemma_nbr_in_range(idx: int, size: int, k: int)
    requires
        0 <= idx < size * size,
        size > 0,
    ensures
        nbr(idx, size, k) matches Some(n) ==> 0 <= n < size * size,
        0 <= idx / size < size,
        0 <= idx % size < size,
        idx == (idx / size) * size + idx % size,
{
    assert(idx == (idx / size) * size + idx % size) by (nonlinear_arith)
        requires
            size > 0,
    ;
    assert(0 <= idx / size < size) by (nonlinear_arith)
        requires
            size > 0,
            0 <= idx < size * size,
    ;
    let row = idx / size;
    let col = idx % size;
    if row > 0 {
        lemma_cell_index(row - 1, col, size);
    }
    if row + 1 < size {
        lemma_cell_index(row + 1, col, size);
    }
    if col > 0 {
        lemma_cell_index(row, col - 1, size);
    }
    if col + 1 < size {
        lemma_cell_index(row, col + 1, size);
    }
    lemma_cell_index(row, col, size);
}

fn push_candidate(
    nidx: Option<usize>,
    zones: &Vec<u8>,
    assigned: &Vec<bool>,
    seen: &mut [bool; 16],
    candidates: &mut Vec<usize>,
)
    requires
        nidx matches Some(n) ==> n < zones@.len() && n < assigned@.len(),
        forall|z: int| 0 <= z < 16 ==> old(seen)@[z] == old(candidates)@.contains(z as usize),
        forall|j: int| 0 <= j < old(candidates)@.len() ==> #[trigger] old(candidates)@[j] < 16,
    ensures
        forall|z: int| 0 <= z < 16 ==> final(seen)@[z] == final(candidates)@.contains(z as usize),
        forall|j: int| 0 <= j < final(candidates)@.len() ==> #[trigger] final(candidates)@[j] < 16,
        final(candidates)@ == (match nidx {
            Some(n) => if assigned@[n as int] && zones@[n as int] < 16 && !old(candidates)@.contains(
                zones@[n as int] as usize,
            ) {
                old(candidates)@.push(zones@[n as int] as usize)
            } else {
                old(candidates)@
            },
            None => old(candidates)@,
        }),
{
    if let Some(n) = nidx {
        if assigned[n] {
            let zone = zones[n] as usize;
            if zone < 16 && !seen[zone] {
                seen[zone] = true;
                candidates.push(zone);
                proof {
                    assert forall|z: int| 0 <= z < 16 implies seen@[z] == candidates@.contains(z as usize) by {
                        if old(candidates)@.contains(z as usize) {
                            let j = choose|j: int| 0 <= j < old(candidates)@.len() && old(candidates)@[j] == z as usize;
                            assert(candidates@[j] == z as usize);
                        }
                        if z != zone {
                            if candidates@.contains(z as usize) {
                                let j = choose|j: int| 0 <= j < candidates@.len() && candidates@[j] == z as usize;
                                assert(j < old(candidates)@.len());
                                assert(old(candidates)@[j] == z as usize);
                            }
                        } else {
                            assert(candidates@[candidates@.len() - 1] == z as usize);
                        }
                    }
                }
            }
        }
    }
}

/// The zones cell `idx` may join: those of its assigned neighbours, in the
/// order north, south, west, east, each once, only zones below 16.
pub fn candidate_zones_for_cell(idx: usize, size: usize, zones: &Vec<u8>, assigned: &Vec<bool>) -> (r: Vec<usize>)
    requires
        size > 0,
        size * size <= usize::MAX,
        idx < size * size,
        zones@.len() == size * size,
        assigned@.len() == size * size,
    ensures
        r@ == cand_list(idx as int, size as int, zones@, assigned@, 4),
        forall|j: int| 0 <= j < r@.len() ==> #[trigger] r@[j] < 16,
{
    let row = idx / size;
    let col = idx % size;
    proof {
        lemma_nbr_in_range(idx as int, size as int, 0);
        lemma_nbr_in_range(idx as int, size as int, 1);
        lemma_nbr_in_range(idx as int, size as int, 2);
        lemma_nbr_in_range(idx as int, size as int, 3);
    }
    let mut candidates: Vec<usize> = Vec::new();
    let mut seen = [false; 16];
    assert(cand_list(idx as int, size as int, zones@, assigned@, 0) =~= Seq::<usize>::empty());
    assert(candidates@ =~= Seq::<usize>::empty());
    let n0 = if row > 0 {
        Some((row - 1) * size + col)
    } else {
        None
    };
    push_candidate(n0, zones, assigned, &mut seen, &mut candidates);
    assert(candidates@ == cand_list(idx as int, size as int, zones@, assigned@, 1));
    let n1 = if row + 1 < size {
        Some((row + 1) * size + col)
    } else {
        None
    };
    push_candidate(n1, zones, assigned, &mut seen, &mut candidates);
    assert(candidates@ == cand_list(idx as int, size as int, zones@, assigned@, 2));
    let n2 = if col > 0 {
        Some(row * size + col - 1)
    } else {
        None
    };
    push_candidate(n2, zones, assigned, &mut seen, &mut candidates);
    assert(candidates@ == cand_list(idx as int, size as int, zones@, assigned@, 3));
    let n3 = if col + 1 < size {
        Some(row * size + col + 1)
    } else {
        None
    };
    push_candidate(n3, zones, assigned, &mut seen, &mut candidates);
    candidates
}

/// Neighbour `m` of cell `idx` is assigned and in zone `z`.
pub open spec fn nbr_gives(idx: int, size: int, zones: Seq<u8>, assigned: Seq<bool>, m: int, z: usize) -> bool {
    match nbr(idx, size, m) {
        Some(n) => assigned[n] && zones[n] as usize == z,
        None => false,
    }
}

/// Every zone offered to a cell is the zone of one of its assigned
/// neighbours.
proof fn lemma_cand_from_nbr(idx: int, size: int, zones: Seq<u8>, assigned: Seq<bool>, k: int, j: int)
    requires
        0 <= j < cand_list(idx, size, zones, assigned, k).len(),
    ensures
        exists|m: int|
            0 <= m < k && #[trigger] nbr_gives(idx, size, zones, assigned, m, cand_list(idx, size, zones, assigned, k)[j]),
    decreases k,
{
    let prev = cand_list(idx, size, zones, assigned, k - 1);
    if j < prev.len() {
        lemma_cand_from_nbr(idx, size, zones, assigned, k - 1, j);
        let m = choose|m: int| 0 <= m < k - 1 && #[trigger] nbr_gives(idx, size, zones, assigned, m, prev[j]);
        assert(cand_list(idx, size, zones, assigned, k)[j] == prev[j]);
        assert(nbr_gives(idx, size, zones, assigned, m, cand_list(idx, size, zones, assigned, k)[j]));
    } else {
        assert(nbr_gives(idx, size, zones, assigned, k - 1, cand_list(idx, size, zones, assigned, k)[j]));
    }
}

pub open spec fn sum_usize(s: Seq<usize>) -> nat
    decreases s.len(),
{
    if s.len() == 0 {
        0
    } else {
        sum_usize(s.drop_last()) + s.last() as nat
    }
}

proof fn lemma_sum_update(s: Seq<usize>, i: int, v: usize)
    requires
        0 <= i < s.len(),
    ensures
        sum_usize(s.update(i, v)) + s[i] == sum_usize(s) + v,
    decreases s.len(),
{
    if i < s.len() - 1 {
        lemma_sum_update(s.drop_last(), i, v);
        assert(s.update(i, v).drop_last() == s.drop_last().update(i, v));
    } else {
        assert(s.update(i, v).drop_last() == s.drop_last());
    }
}

proof fn lemma_sum_bound(s: Seq<usize>, hi: nat)
    requires
        forall|i: int| 0 <= i < s.len() ==> #[trigger] s[i] <= hi,
    ensures
        sum_usize(s) <= s.len() * hi,
    decreases s.len(),
{
    if s.len() > 0 {
        lemma_sum_bound(s.drop_last(), hi);
        assert(sum_usize(s) <= (s.len() - 1) * hi + hi);
        assert((s.len() - 1) * hi + hi == s.len() * hi) by (nonlinear_arith);
    }
}

/// Smallest zone a generated board aims for besides the single cells.
pub open spec fn min_zone(size: int) -> int {
    if size >= 5 { 3 } else { 2 }
}

/// Largest zone a generated board allows.
pub open spec fn max_zone(size: int) -> int {
    size * size - min_zone(size) * (size - 1)
}

/// How far the difficulty lets a zone's target size stray.
pub open spec fn spread_of(difficulty: u8) -> i32 {
    if difficulty <= 1 {
        0
    } else if difficulty == 2 {
        2
    } else {
        4
    }
}

/// Entries `i` on of `ts` each moved by a draw from `-spread` to `spread`
/// (no draw for a spread of 0) and kept within `lo..=hi`; the entries and
/// the generator state after.
pub open spec fn jitter_from(ts: Seq<usize>, st: u64, i: nat, spread: i32, lo: int, hi: int) -> (Seq<usize>, u64)
    decreases ts.len() - i,
{
    if i >= ts.len() {
        (ts, st)
    } else {
        let noise: int = if spread <= 0 {
            0
        } else {
            (xorshift(st) % ((spread as u64) * 2 + 1) as u64) as int - spread
        };
        let st2 = if spread <= 0 { st } else { xorshift(st) };
        let raw = ts[i as int] + noise;
        let c = if raw < lo { lo } else if raw > hi { hi } else { raw };
        jitter_from(ts.update(i as int, c as usize), st2, i + 1, spread, lo, hi)
    }
}

/// Random single steps up: a drawn entry below `hi` grows by one, until the
/// entries add up to `total` or `fuel` draws are spent.
pub open spec fn grow_sizes(ts: Seq<usize>, st: u64, fuel: nat, total: int, hi: int) -> (Seq<usize>, u64)
    decreases fuel,
{
    if sum_usize(ts) >= total || fuel == 0 {
        (ts, st)
    } else {
        let st2 = xorshift(st);
        let idx = (st2 % (ts.len() as u64)) as int;
        let ts2 = if ts[idx] < hi { ts.update(idx, (ts[idx] + 1) as usize) } else { ts };
        grow_sizes(ts2, st2, (fuel - 1) as nat, total, hi)
    }
}

/// Random single steps down: a drawn entry above `lo` shrinks by one, until
/// the entries add up to `total` or `fuel` draws are spent.
pub open spec fn shrink_sizes(ts: Seq<usize>, st: u64, fuel: nat, total: int, lo: int) -> (Seq<usize>, u64)
    decreases fuel,
{
    if sum_usize(ts) <= total || fuel == 0 {
        (ts, st)
    } else {
        let st2 = xorshift(st);
        let idx = (st2 % (ts.len() as u64)) as int;
        let ts2 = if ts[idx] > lo { ts.update(idx, (ts[idx] - 1) as usize) } else { ts };
        shrink_sizes(ts2, st2, (fuel - 1) as nat, total, lo)
    }
}

/// The first `n` entries set to single cells.
pub open spec fn set_ones(ts: Seq<usize>, n: int) -> Seq<usize> {
    Seq::new(ts.len(), |j: int| if j < n { 1usize } else { ts[j] })
}

/// The target zone sizes for a board of `size` and the generator state
/// after, from state `st`: `size` cells each, jittered, the first one (two
/// at difficulty 0 or 1) single cells, then grown and shrunk by single
/// steps towards `size * size` in all.
pub open spec fn target_sizes(size: int, difficulty: u8, st: u64) -> (Seq<usize>, u64) {
    let lo = min_zone(size);
    let hi = max_zone(size);
    let j = jitter_from(Seq::new(size as nat, |i: int| size as usize), st, 0, spread_of(difficulty), lo, hi);
    let sc: int = if difficulty <= 1 { 2 } else { 1 };
    let sc = if sc < size { sc } else { size };
    let g = grow_sizes(set_ones(j.0, sc), j.1, u64::MAX as nat, size * size, hi);
    shrink_sizes(g.0, g.1, u64::MAX as nat, size * size, lo)
}

/// The zone sizes to aim for: about `size` cells each, jittered by the
/// difficulty, the first one or two zones single cells, then adjusted by
/// random single steps until they add up to the board. The adjustment
/// draws until it is done; after `u64::MAX` draws it would give up.
pub fn target_zone_sizes(size: usize, difficulty: u8, rng: &mut Rng) -> (targets: Vec<usize>)
    requires
        size >= 2,
        size * size <= i32::MAX,
    ensures
        targets@.len() == size,
        forall|i: int| 0 <= i < size ==> 1 <= #[trigger] targets@[i] <= max_zone(size as int),
        targets@ == target_sizes(size as int, difficulty, old(rng).0).0,
        final(rng).0 == target_sizes(size as int, difficulty, old(rng).0).1,
{
    let ghost st0 = rng.0;
    let total = size * size;
    proof {
        assert(total / size == size) by (nonlinear_arith)
            requires
                total == size * size,
                size > 0,
        ;
        assert(min_zone(size as int) <= max_zone(size as int)) by (nonlinear_arith)
            requires
                size >= 2,
                size >= min_zone(size as int),
        ;
        assert(min_zone(size as int) * (size - 1) >= 0) by (nonlinear_arith)
            requires
                size >= 2,
                min_zone(size as int) >= 2,
        ;
    }
    let base = total / size;
    let min_size: usize = if size >= 5 {
        3
    } else {
        2
    };
    let max_size = total - min_size * (size - 1);
    let spread: i32 = match difficulty {
        0 | 1 => 0,
        2 => 2,
        _ => 4,
    };
    let mut targets: Vec<usize> = Vec::new();
    let mut k: usize = 0;
    while k < size
        invariant
            k <= size,
            targets@.len() == k,
            forall|i: int| 0 <= i < k ==> #[trigger] targets@[i] == base,
        decreases size - k,
    {
        targets.push(base);
        k = k + 1;
    }
    assert(spread == spread_of(difficulty));
    assert(targets@ =~= Seq::new(size as nat, |i: int| size as usize));
    let ghost jt = jitter_from(targets@, rng.0, 0, spread, min_zone(size as int), max_zone(size as int));
    assert(rng.0 == st0);
    let mut i: usize = 0;
    while i < size
        invariant
            jitter_from(targets@, rng.0, i as nat, spread, min_zone(size as int), max_zone(size as int)) == jt,
            spread == spread_of(difficulty),
            i <= size,
            targets@.len() == size,
            total == size * size,
            total <= i32::MAX,
            min_size == min_zone(size as int),
            max_size == max_zone(size as int),
            min_size <= max_size <= total,
            base == size,
            forall|j: int| 0 <= j < i ==> min_size <= #[trigger] targets@[j] <= max_size,
            forall|j: int| 0 <= j < i ==> #[trigger] targets@[j] <= size + 4,
            forall|j: int| i <= j < size ==> #[trigger] targets@[j] == base,
            spread <= 4,
        decreases size - i,
    {
        let noise = rng.gen_signed(spread);
        let raw: i64 = targets[i] as i64 + noise as i64;
        let lo = min_size as i64;
        let hi = max_size as i64;
        let clamped: i64 = if raw < lo {
            lo
        } else if raw > hi {
            hi
        } else {
            raw
        };
        targets[i] = clamped as usize;
        i = i + 1;
    }
    let singleton_count: usize = if difficulty <= 1 {
        2
    } else {
        1
    };
    let singleton_count = if singleton_count < size {
        singleton_count
    } else {
        size
    };
    assert(targets@ == jt.0 && rng.0 == jt.1);
    let mut i: usize = 0;
    while i < singleton_count
        invariant
            targets@ == Seq::new(size as nat, |j: int| if j < i { 1usize } else { jt.0[j] }),
            jt.0.len() == size,
            i <= singleton_count <= size,
            targets@.len() == size,
            1 <= min_size <= max_size,
            forall|j: int| 0 <= j < size ==> 1 <= #[trigger] targets@[j] <= max_size,
            forall|j: int| 0 <= j < size ==> #[trigger] targets@[j] <= size + 4,
        decreases singleton_count - i,
    {
        targets[i] = 1;
        i = i + 1;
        assert(targets@ =~= Seq::new(size as nat, |j: int| if j < i { 1usize } else { jt.0[j] }));
    }
    assert(targets@ == set_ones(jt.0, singleton_count as int));
    let ghost gt = grow_sizes(targets@, rng.0, u64::MAX as nat, total as int, max_size as int);
    let mut sum: usize = 0;
    let mut i: usize = 0;
    while i < size
        invariant
            i <= size,
            targets@.len() == size,
            total == size * size,
            total <= i32::MAX,
            sum == sum_usize(targets@.subrange(0, i as int)),
            forall|j: int| 0 <= j < size ==> 1 <= #[trigger] targets@[j] <= max_size,
            forall|j: int| 0 <= j < size ==> #[trigger] targets@[j] <= size + 4,
        decreases size - i,
    {
        proof {
            assert(targets@.subrange(0, i as int + 1).drop_last() == targets@.subrange(0, i as int));
            assert forall|j: int| 0 <= j < i + 1 implies #[trigger] targets@.subrange(0, i as int + 1)[j] <= size + 4 by {}
            lemma_sum_bound(targets@.subrange(0, i as int + 1), (size + 4) as nat);
            assert((i + 1) * (size + 4) <= size * size + 4 * size) by (nonlinear_arith)
                requires i + 1 <= size;
            assert(size <= 46341) by (nonlinear_arith)
                requires size * size <= i32::MAX;
            assert(sum + targets@[i as int] == sum_usize(targets@.subrange(0, i as int + 1)));
        }
        sum = sum + targets[i];
        i = i + 1;
    }
    proof {
        assert(targets@.subrange(0, size as int) == targets@);
    }
    let mut fuel: u64 = u64::MAX;
    while sum < total && fuel > 0
        invariant
            grow_sizes(targets@, rng.0, fuel as nat, total as int, max_size as int) == gt,
            total == size * size,
            max_size == max_zone(size as int),
            targets@.len() == size,
            size >= 2,
            sum == sum_usize(targets@),
            forall|j: int| 0 <= j < size ==> 1 <= #[trigger] targets@[j] <= max_size,
        decreases fuel,
    {
        let idx = rng.gen_range(size);
        if targets[idx] < max_size {
            proof {
                lemma_sum_update(targets@, idx as int, (targets@[idx as int] + 1) as usize);
            }
            targets[idx] = targets[idx] + 1;
            sum = sum + 1;
        }
        fuel = fuel - 1;
    }
    assert(targets@ == gt.0 && rng.0 == gt.1);
    let ghost sh = shrink_sizes(targets@, rng.0, u64::MAX as nat, total as int, min_size as int);
    let mut fuel: u64 = u64::MAX;
    while sum > total && fuel > 0
        invariant
            shrink_sizes(targets@, rng.0, fuel as nat, total as int, min_size as int) == sh,
            total == size * size,
            min_size == min_zone(size as int),
            targets@.len() == size,
            size >= 2,
            sum == sum_usize(targets@),
            1 <= min_size,
            forall|j: int| 0 <= j < size ==> 1 <= #[trigger] targets@[j] <= max_size,
        decreases fuel,
    {
        let idx = rng.gen_range(size);
        if targets[idx] > min_size {
            proof {
                lemma_sum_update(targets@, idx as int, (targets@[idx as int] - 1) as usize);
            }
            targets[idx] = targets[idx] - 1;
            sum = sum - 1;
        }
        fuel = fuel - 1;
    }
    assert(targets@ == sh.0 && rng.0 == sh.1);
    targets
}

/// The frontier lists cells waiting to be considered, each once, and the
/// marks tell exactly which cells are listed.
pub open spec fn frontier_ok(frontier: Seq<usize>, mark: Seq<bool>, total: int) -> bool {
    &&& mark.len() == total
    &&& forall|j: int| 0 <= j < frontier.len() ==> #[trigger] frontier[j] < total
    &&& forall|a: int, b: int| 0 <= a < b < frontier.len() ==> #[trigger] frontier[a] != #[trigger] frontier[b]
    &&& forall|i: int| 0 <= i < total ==> #[trigger] mark[i] == frontier.contains(i as usize)
}

/// The frontier after offering cell `n`: it is appended when it is a cell
/// of the grid, not yet assigned and not yet listed.
pub open spec fn offer_cell(frontier: Seq<usize>, assigned: Seq<bool>, n: int) -> Seq<usize> {
    if 0 <= n < assigned.len() && !assigned[n] && !frontier.contains(n as usize) {
        frontier.push(n as usize)
    } else {
        frontier
    }
}

/// The frontier after offering neighbour `k` of cell `idx` (none where the
/// cell has no such neighbour).
pub open spec fn offer_nbr(frontier: Seq<usize>, assigned: Seq<bool>, idx: int, size: int, k: int) -> Seq<usize> {
    match nbr(idx, size, k) {
        Some(n) => offer_cell(frontier, assigned, n),
        None => frontier,
    }
}

/// The frontier after offering the neighbours of cell `idx` in the order
/// north, south, west, east.
pub open spec fn offer_nbrs(frontier: Seq<usize>, assigned: Seq<bool>, idx: int, size: int) -> Seq<usize> {
    let f0 = offer_nbr(frontier, assigned, idx, size, 0);
    let f1 = offer_nbr(f0, assigned, idx, size, 1);
    let f2 = offer_nbr(f1, assigned, idx, size, 2);
    offer_nbr(f2, assigned, idx, size, 3)
}

fn push_frontier(idx: usize, total: usize, frontier: &mut Vec<usize>, mark: &mut Vec<bool>, assigned: &Vec<bool>)
    requires
        assigned@.len() == total,
        frontier_ok(old(frontier)@, old(mark)@, total as int),
    ensures
        frontier_ok(final(frontier)@, final(mark)@, total as int),
        final(frontier)@ == offer_cell(old(frontier)@, assigned@, idx as int),
        final(frontier)@ == (if idx < total && !assigned@[idx as int] && !old(mark)@[idx as int] {
            old(frontier)@.push(idx)
        } else {
            old(frontier)@
        }),
{
    if idx < total && !assigned[idx] && !mark[idx] {
        mark[idx] = true;
        frontier.push(idx);
        proof {
            assert forall|i: int| 0 <= i < total implies #[trigger] mark@[i] == frontier@.contains(i as usize) by {
                if old(frontier)@.contains(i as usize) {
                    let j = choose|j: int| 0 <= j < old(frontier)@.len() && old(frontier)@[j] == i as usize;
                    assert(frontier@[j] == i as usize);
                }
                if frontier@.contains(i as usize) && i != idx {
                    let j = choose|j: int| 0 <= j < frontier@.len() && frontier@[j] == i as usize;
                    assert(j < old(frontier)@.len());
                    assert(old(frontier)@[j] == i as usize);
                }
                if i == idx {
                    assert(frontier@[frontier@.len() - 1] == idx);
                }
            }
            assert forall|a: int, b: int| 0 <= a < b < frontier@.len() implies #[trigger] frontier@[a] != #[trigger] frontier@[b] by {
                if b == old(frontier)@.len() {
                    assert(old(frontier)@.contains(frontier@[a]));
                }
            }
        }
    }
}

fn push_neighbours(idx: usize, size: usize, frontier: &mut Vec<usize>, mark: &mut Vec<bool>, assigned: &Vec<bool>)
    requires
        size > 0,
        size * size <= usize::MAX,
        idx < size * size,
        assigned@.len() == size * size,
        frontier_ok(old(frontier)@, old(mark)@, (size * size) as int),
    ensures
        frontier_ok(final(frontier)@, final(mark)@, (size * size) as int),
        forall|j: int| 0 <= j < old(frontier)@.len() ==> #[trigger] final(frontier)@[j] == old(frontier)@[j],
        forall|j: int| old(frontier)@.len() <= j < final(frontier)@.len() ==> !assigned@[#[trigger] final(frontier)@[j] as int],
        old(frontier)@.len() <= final(frontier)@.len(),
        final(frontier)@ == offer_nbrs(old(frontier)@, assigned@, idx as int, size as int),
{
    let total = size * size;
    let row = idx / size;
    let col = idx % size;
    proof {
        lemma_nbr_in_range(idx as int, size as int, 0);
        lemma_nbr_in_range(idx as int, size as int, 1);
        lemma_nbr_in_range(idx as int, size as int, 2);
        lemma_nbr_in_range(idx as int, size as int, 3);
    }
    if row > 0 {
        push_frontier((row - 1) * size + col, total, frontier, mark, assigned);
    }
    if row + 1 < size {
        push_frontier((row + 1) * size + col, total, frontier, mark, assigned);
    }
    if col > 0 {
        push_frontier(row * size + col - 1, total, frontier, mark, assigned);
    }
    if col + 1 < size {
        push_frontier(row * size + col + 1, total, frontier, mark, assigned);
    }
}

/// Cell `i` is the hidden solution's cell of some row.
pub open spec fn is_seed(cols: Seq<usize>, size: int, i: int) -> bool {
    exists|r: int| 0 <= r < size && #[trigger] cols[r] == i - r * size && 0 <= i - r * size
}

/// Neighbour `m` of cell `i` lies in the same zone, nearer to the zone's
/// seed.
pub open spec fn linked(zones: Seq<u8>, size: int, depth: Seq<nat>, i: int, m: int) -> bool {
    match nbr(i, size, m) {
        Some(n) => zones[n] == zones[i] && depth[n] < depth[i] && zones[n] != 255u8,
        None => false,
    }
}

/// Each zone is connected: every zoned cell is a seed or reaches, step by
/// step through neighbours of its own zone, cells nearer to a seed.
pub open spec fn zones_connected(zones: Seq<u8>, size: int, cols: Seq<usize>, depth: Seq<nat>) -> bool {
    &&& depth.len() == zones.len()
    &&& forall|i: int|
        0 <= i < zones.len() && zones[i] != 255u8 ==> (#[trigger] depth[i] == 0 && is_seed(cols, size, i))
            || (depth[i] > 0 && exists|m: int| 0 <= m < 4 && #[trigger] linked(zones, size, depth, i, m))
}

pub open spec fn count_true(s: Seq<bool>) -> nat
    decreases s.len(),
{
    if s.len() == 0 {
        0
    } else {
        count_true(s.drop_last()) + if s.last() { 1nat } else { 0nat }
    }
}

proof fn lemma_count_true_set(s: Seq<bool>, i: int)
    requires
        0 <= i < s.len(),
        !s[i],
    ensures
        count_true(s.update(i, true)) == count_true(s) + 1,
    decreases s.len(),
{
    if i < s.len() - 1 {
        lemma_count_true_set(s.drop_last(), i);
        assert(s.update(i, true).drop_last() == s.drop_last().update(i, true));
    } else {
        assert(s.update(i, true).drop_last() == s.drop_last());
    }
}

proof fn lemma_count_true_bound(s: Seq<bool>)
    ensures
        count_true(s) <= s.len(),
        count_true(s) == s.len() ==> forall|i: int| 0 <= i < s.len() ==> #[trigger] s[i],
    decreases s.len(),
{
    if s.len() > 0 {
        lemma_count_true_bound(s.drop_last());
        if count_true(s) == s.len() {
            assert forall|i: int| 0 <= i < s.len() implies #[trigger] s[i] by {
                if i < s.len() - 1 {
                    assert(s.drop_last()[i] == s[i]);
                }
            }
        }
    }
}

proof fn lemma_count_true_all_false(n: nat)
    ensures
        count_true(Seq::new(n, |i: int| false)) == 0,
    decreases n,
{
    if n > 0 {
        lemma_count_true_all_false((n - 1) as nat);
        assert(Seq::new(n, |i: int| false).drop_last() == Seq::new((n - 1) as nat, |i: int| false));
    }
}

/// How many neighbours of cell `idx` already lie in zone `z`.
pub open spec fn same_zone_nbrs(idx: int, size: int, zones: Seq<u8>, assigned: Seq<bool>, z: usize) -> int {
    (if nbr_gives(idx, size, zones, assigned, 0, z) { 1int } else { 0int }) + (if nbr_gives(
        idx,
        size,
        zones,
        assigned,
        1,
        z,
    ) { 1int } else { 0int }) + (if nbr_gives(idx, size, zones, assigned, 2, z) { 1int } else { 0int }) + (
    if nbr_gives(idx, size, zones, assigned, 3, z) { 1int } else { 0int })
}

/// Cell `idx` lies on the border of the board.
pub open spec fn at_border(idx: int, size: int) -> bool {
    let row = idx / size;
    let col = idx % size;
    col == 0 || col + 1 == size || row == 0 || row + 1 == size
}

/// The score of zone `z` for cell `idx` with noise `noise`.
pub open spec fn zone_score(
    idx: int,
    size: int,
    zones: Seq<u8>,
    assigned: Seq<bool>,
    targets: Seq<usize>,
    counts: Seq<usize>,
    z: usize,
    cw: i32,
    noise: int,
) -> int {
    (targets[z as int] - counts[z as int]) * 10 + same_zone_nbrs(idx, size, zones, assigned, z) * cw + noise + (
    if at_border(idx, size) { 1int } else { 0int })
}

/// Candidates `k` on scored in turn, each with a fresh noise draw from
/// `-ns` to `ns`; a strictly better score takes the lead. The zone in the
/// lead at the end and the generator state after.
pub open spec fn pick_zone(
    idx: int,
    size: int,
    zones: Seq<u8>,
    assigned: Seq<bool>,
    targets: Seq<usize>,
    counts: Seq<usize>,
    cands: Seq<usize>,
    cw: i32,
    ns: i32,
    k: int,
    best: usize,
    best_score: int,
    st: u64,
) -> (usize, u64)
    decreases cands.len() - k,
{
    if k < 0 || k >= cands.len() {
        (best, st)
    } else {
        let noise: int = if ns <= 0 { 0 } else { (xorshift(st) % ((ns as u64) * 2 + 1) as u64) as int - ns };
        let st2 = if ns <= 0 { st } else { xorshift(st) };
        let sc = zone_score(idx, size, zones, assigned, targets, counts, cands[k], cw, noise);
        if sc > best_score {
            pick_zone(idx, size, zones, assigned, targets, counts, cands, cw, ns, k + 1, cands[k], sc, st2)
        } else {
            pick_zone(idx, size, zones, assigned, targets, counts, cands, cw, ns, k + 1, best, best_score, st2)
        }
    }
}

/// Picks the zone for cell `idx` among `candidates`: the one with the best
/// score (ten per missing cell of its target size, the contiguity weight
/// per neighbour already in it, some noise, one more at the border); the
/// first one wins ties.
fn choose_zone(
    idx: usize,
    size: usize,
    zones: &Vec<u8>,
    assigned: &Vec<bool>,
    targets: &Vec<usize>,
    counts: &Vec<usize>,
    candidates: &Vec<usize>,
    contiguity_weight: i32,
    noise_spread: i32,
    rng: &mut Rng,
) -> (best: usize)
    requires
        size > 0,
        size * size <= 200_000_000,
        idx < size * size,
        zones@.len() == size * size,
        assigned@.len() == size * size,
        targets@.len() == size,
        counts@.len() == size,
        forall|z: int| 0 <= z < size ==> #[trigger] targets@[z] <= size * size,
        forall|z: int| 0 <= z < size ==> #[trigger] counts@[z] <= size * size,
        candidates@.len() > 0,
        forall|j: int| 0 <= j < candidates@.len() ==> #[trigger] candidates@[j] < size,
        0 <= contiguity_weight <= 3,
        0 <= noise_spread <= 4,
    ensures
        candidates@.contains(best),
        (best, final(rng).0) == pick_zone(
            idx as int,
            size as int,
            zones@,
            assigned@,
            targets@,
            counts@,
            candidates@,
            contiguity_weight,
            noise_spread,
            0,
            candidates@[0],
            i32::MIN as int,
            old(rng).0,
        ),
{
    let mut best_zone = candidates[0];
    let mut best_score = i32::MIN;
    let ghost tgt = pick_zone(
        idx as int,
        size as int,
        zones@,
        assigned@,
        targets@,
        counts@,
        candidates@,
        contiguity_weight,
        noise_spread,
        0,
        candidates@[0],
        i32::MIN as int,
        rng.0,
    );
    let row = idx / size;
    let col = idx % size;
    proof {
        lemma_nbr_in_range(idx as int, size as int, 0);
        lemma_nbr_in_range(idx as int, size as int, 1);
        lemma_nbr_in_range(idx as int, size as int, 2);
        lemma_nbr_in_range(idx as int, size as int, 3);
    }
    let mut k: usize = 0;
    while k < candidates.len()
        invariant
            pick_zone(
                idx as int,
                size as int,
                zones@,
                assigned@,
                targets@,
                counts@,
                candidates@,
                contiguity_weight,
                noise_spread,
                k as int,
                best_zone,
                best_score as int,
                rng.0,
            ) == tgt,
            k <= candidates@.len(),
            candidates@.contains(best_zone),
            size > 0,
            size * size <= 200_000_000,
            row == idx / size,
            col == idx % size,
            idx < size * size,
            zones@.len() == size * size,
            assigned@.len() == size * size,
            targets@.len() == size,
            counts@.len() == size,
            forall|z: int| 0 <= z < size ==> #[trigger] targets@[z] <= size * size,
            forall|z: int| 0 <= z < size ==> #[trigger] counts@[z] <= size * size,
            forall|j: int| 0 <= j < candidates@.len() ==> #[trigger] candidates@[j] < size,
            0 <= contiguity_weight <= 3,
            0 <= noise_spread <= 4,
        decreases candidates@.len() - k,
    {
        let zone = candidates[k];
        let deficit = targets[zone] as i32 - counts[zone] as i32;
        let noise = rng.gen_signed(noise_spread);
        let edge_bias: i32 = if col == 0 || col + 1 == size || row == 0 || row + 1 == size {
            1
        } else {
            0
        };
        let mut same_zone_neighbors: i32 = 0;
        proof {
            lemma_nbr_in_range(idx as int, size as int, 0);
            lemma_nbr_in_range(idx as int, size as int, 1);
            lemma_nbr_in_range(idx as int, size as int, 2);
            lemma_nbr_in_range(idx as int, size as int, 3);
        }
        if row > 0 && assigned[(row - 1) * size + col] && zones[(row - 1) * size + col] as usize == zone {
            same_zone_neighbors = same_zone_neighbors + 1;
        }
        if row + 1 < size && assigned[(row + 1) * size + col] && zones[(row + 1) * size + col] as usize == zone {
            same_zone_neighbors = same_zone_neighbors + 1;
        }
        if col > 0 && assigned[row * size + col - 1] && zones[row * size + col - 1] as usize == zone {
            same_zone_neighbors = same_zone_neighbors + 1;
        }
        if col + 1 < size && assigned[row * size + col + 1] && zones[row * size + col + 1] as usize == zone {
            same_zone_neighbors = same_zone_neighbors + 1;
        }
        assert(0 <= same_zone_neighbors <= 4);
        assert(-200_000_000 <= deficit <= 200_000_000);
        assert(-4 <= noise <= 4);
        assert(same_zone_neighbors * contiguity_weight <= 12) by (nonlinear_arith)
            requires
                0 <= same_zone_neighbors <= 4,
                0 <= contiguity_weight <= 3,
        ;
        assert(same_zone_neighbors * contiguity_weight >= 0) by (nonlinear_arith)
            requires
                0 <= same_zone_neighbors <= 4,
                0 <= contiguity_weight <= 3,
        ;
        assert(same_zone_neighbors == same_zone_nbrs(idx as int, size as int, zones@, assigned@, zone));
        assert((edge_bias == 1) == at_border(idx as int, size as int));
        let score = deficit * 10 + same_zone_neighbors * contiguity_weight + noise + edge_bias;
        if score > best_score {
            best_score = score;
            best_zone = zone;
        }
        k = k + 1;
    }
    best_zone
}

/// Neighbour `m` of cell `i` is assigned, in the same zone and nearer to a
/// seed.
pub open spec fn a_linked(zones: Seq<u8>, assigned: Seq<bool>, size: int, depth: Seq<nat>, i: int, m: int) -> bool {
    match nbr(i, size, m) {
        Some(n) => assigned[n] && zones[n] == zones[i] && depth[n] < depth[i],
        None => false,
    }
}

pub open spec fn grown_ok(zones: Seq<u8>, assigned: Seq<bool>, size: int, cols: Seq<usize>, depth: Seq<nat>) -> bool {
    &&& depth.len() == zones.len()
    &&& forall|i: int|
        0 <= i < zones.len() && #[trigger] assigned[i] ==> (depth[i] == 0 && is_seed(cols, size, i))
            || (depth[i] > 0 && exists|m: int| 0 <= m < 4 && #[trigger] a_linked(zones, assigned, size, depth, i, m))
}

proof fn lemma_swap_remove_ok(frontier: Seq<usize>, mark: Seq<bool>, total: int, fi: int)
    requires
        frontier_ok(frontier, mark, total),
        total <= usize::MAX,
        0 <= fi < frontier.len(),
    ensures
        frontier_ok(
            frontier.update(fi, frontier.last()).drop_last(),
            mark.update(frontier[fi] as int, false),
            total,
        ),
        forall|j: int| 0 <= j < frontier.len() - 1 ==> frontier.contains(#[trigger] frontier.update(fi, frontier.last()).drop_last()[j]),
{
    let f2 = frontier.update(fi, frontier.last()).drop_last();
    let idx = frontier[fi];
    let last = frontier.len() - 1;
    assert forall|j: int| 0 <= j < f2.len() implies frontier.contains(#[trigger] f2[j]) by {
        if j == fi {
            assert(frontier[last] == f2[j]);
        } else {
            assert(frontier[j] == f2[j]);
        }
    }
    assert forall|a: int, b: int| 0 <= a < b < f2.len() implies #[trigger] f2[a] != #[trigger] f2[b] by {
        let ia = if a == fi { last } else { a };
        let ib = if b == fi { last } else { b };
        assert(f2[a] == frontier[ia]);
        assert(f2[b] == frontier[ib]);
    }
    assert forall|i: int| 0 <= i < total implies #[trigger] mark.update(idx as int, false)[i] == f2.contains(i as usize) by {
        if f2.contains(i as usize) {
            let j = choose|j: int| 0 <= j < f2.len() && f2[j] == i as usize;
            let ij = if j == fi { last } else { j };
            assert(frontier[ij] == i as usize);
            assert(ij != fi);
            if i == idx {
                assert(frontier[ij] == frontier[fi]);
                if ij < fi {
                    assert(frontier[ij] != frontier[fi]);
                } else {
                    assert(frontier[fi] != frontier[ij]);
                }
            }
        }
        if i != idx && frontier.contains(i as usize) {
            let j = choose|j: int| 0 <= j < frontier.len() && frontier[j] == i as usize;
            if j == last {
                if fi != last {
                    assert(f2[fi] == i as usize);
                }
            } else {
                assert(j != fi);
                assert(f2[j] == i as usize);
            }
        }
    }
}

proof fn lemma_grown_persists(
    zones: Seq<u8>,
    assigned: Seq<bool>,
    size: int,
    cols: Seq<usize>,
    depth: Seq<nat>,
    idx: int,
    z: u8,
    d: nat,
)
    requires
        grown_ok(zones, assigned, size, cols, depth),
        size > 0,
        zones.len() == size * size,
        assigned.len() == zones.len(),
        0 <= idx < zones.len(),
        !assigned[idx],
    ensures
        forall|i: int|
            0 <= i < zones.len() && i != idx && #[trigger] assigned[i] ==> (depth.update(idx, d)[i] == 0
                && is_seed(cols, size, i)) || (depth.update(idx, d)[i] > 0 && exists|m: int|
                0 <= m < 4 && #[trigger] a_linked(zones.update(idx, z), assigned.update(idx, true), size, depth.update(idx, d), i, m)),
{
    let z2 = zones.update(idx, z);
    let a2 = assigned.update(idx, true);
    let d2 = depth.update(idx, d);
    assert forall|i: int|
        0 <= i < zones.len() && i != idx && #[trigger] assigned[i] implies (d2[i] == 0 && is_seed(cols, size, i))
            || (d2[i] > 0 && exists|m: int| 0 <= m < 4 && #[trigger] a_linked(z2, a2, size, d2, i, m)) by {
        if !(depth[i] == 0 && is_seed(cols, size, i)) {
            let m = choose|m: int| 0 <= m < 4 && #[trigger] a_linked(zones, assigned, size, depth, i, m);
            lemma_nbr_in_range(i, size, m);
            assert(a_linked(z2, a2, size, d2, i, m));
        }
    }
}

/// A cell with an assigned neighbour in a zone below 16 among its first `k`
/// neighbours has a zone to join.
proof fn lemma_cand_nonempty(idx: int, size: int, zones: Seq<u8>, assigned: Seq<bool>, k: int, m: int)
    requires
        0 <= m < k,
        nbr(idx, size, m) matches Some(n) && assigned[n] && zones[n] < 16,
    ensures
        cand_list(idx, size, zones, assigned, k).len() > 0,
    decreases k,
{
    if m < k - 1 {
        lemma_cand_nonempty(idx, size, zones, assigned, k - 1, m);
    }
}

/// In a row holding an assigned cell, an unassigned cell of that row leads
/// to an unassigned cell of the row with an assigned neighbour to its west
/// (side 2) or east (side 3).
proof fn lemma_row_edge(assigned: Seq<bool>, size: int, r: int, c: int, c0: int) -> (vm: (int, int))
    requires
        size > 0,
        assigned.len() == size * size,
        0 <= r < size,
        0 <= c < size,
        0 <= c0 < size,
        !assigned[r * size + c],
        assigned[r * size + c0],
    ensures
        0 <= vm.0 < size * size,
        !assigned[vm.0],
        vm.1 == 2 || vm.1 == 3,
        nbr(vm.0, size, vm.1) matches Some(n) && assigned[n],
    decreases if c < c0 { c0 - c } else { c - c0 },
{
    lemma_cell_index(r, c, size);
    assert((r * size + c) / size == r && (r * size + c) % size == c) by (nonlinear_arith)
        requires
            0 <= c < size,
            0 <= r,
    ;
    if c < c0 {
        lemma_cell_index(r, c + 1, size);
        if assigned[r * size + c + 1] {
            (r * size + c, 3)
        } else {
            lemma_row_edge(assigned, size, r, c + 1, c0)
        }
    } else {
        lemma_cell_index(r, c - 1, size);
        if assigned[r * size + c - 1] {
            (r * size + c, 2)
        } else {
            lemma_row_edge(assigned, size, r, c - 1, c0)
        }
    }
}

/// The cells `0..n` that are unassigned and next to a zone below 16, in
/// order: the frontier is refilled with them when it runs empty.
pub open spec fn refill_upto(zones: Seq<u8>, assigned: Seq<bool>, size: int, n: int) -> Seq<usize>
    decreases n,
{
    if n <= 0 {
        Seq::empty()
    } else {
        let r = refill_upto(zones, assigned, size, n - 1);
        if !assigned[n - 1] && cand_list(n - 1, size, zones, assigned, 4).len() > 0 {
            r.push((n - 1) as usize)
        } else {
            r
        }
    }
}

proof fn lemma_refill_below(zones: Seq<u8>, assigned: Seq<bool>, size: int, n: int)
    requires
        n <= usize::MAX,
    ensures
        forall|k: int| 0 <= k < refill_upto(zones, assigned, size, n).len() ==> #[trigger] refill_upto(zones, assigned, size, n)[k] < n,
        forall|k: int| 0 <= k < refill_upto(zones, assigned, size, n).len() ==> refill_upto(zones, assigned, size, n)[k] >= 0,
    decreases n,
{
    if n > 0 {
        lemma_refill_below(zones, assigned, size, n - 1);
        let r = refill_upto(zones, assigned, size, n - 1);
        assert forall|k: int| 0 <= k < r.push((n - 1) as usize).len() implies #[trigger] r.push((n - 1) as usize)[k] < n
            && r.push((n - 1) as usize)[k] >= 0 by {
            if k < r.len() {
                assert(r.push((n - 1) as usize)[k] == r[k]);
            }
        }
    }
}

/// The zones being grown: (zones, assigned, counts, frontier, generator
/// state). The frontier to draw from: the one held, or the refill when it
/// is empty.
pub open spec fn grow_frontier(s: (Seq<u8>, Seq<bool>, Seq<usize>, Seq<usize>, u64), size: int) -> Seq<usize> {
    if s.3.len() == 0 {
        refill_upto(s.0, s.1, size, size * size)
    } else {
        s.3
    }
}

/// Growing stops once every cell is assigned or no cell is next to a zone.
pub open spec fn grow_halted(s: (Seq<u8>, Seq<bool>, Seq<usize>, Seq<usize>, u64), size: int) -> bool {
    count_true(s.1) >= size * size || grow_frontier(s, size).len() == 0
}

/// One round of growing: a frontier cell is drawn and taken out; an
/// unassigned one with neighbouring zones joins the zone `pick_zone`
/// chooses, and its neighbours are offered to the frontier.
pub open spec fn grow_step(
    s: (Seq<u8>, Seq<bool>, Seq<usize>, Seq<usize>, u64),
    size: int,
    targets: Seq<usize>,
    cw: i32,
    ns: i32,
) -> (Seq<u8>, Seq<bool>, Seq<usize>, Seq<usize>, u64) {
    let f = grow_frontier(s, size);
    let st2 = xorshift(s.4);
    let fi = (st2 % (f.len() as u64)) as int;
    let idx = f[fi] as int;
    let f2 = f.update(fi, f.last()).drop_last();
    if s.1[idx] {
        (s.0, s.1, s.2, f2, st2)
    } else {
        let cands = cand_list(idx, size, s.0, s.1, 4);
        if cands.len() == 0 {
            (s.0, s.1, s.2, f2, st2)
        } else {
            let p = pick_zone(idx, size, s.0, s.1, targets, s.2, cands, cw, ns, 0, cands[0], i32::MIN as int, st2);
            let a2 = s.1.update(idx, true);
            (
                s.0.update(idx, p.0 as u8),
                a2,
                s.2.update(p.0 as int, (s.2[p.0 as int] + 1) as usize),
                offer_nbrs(f2, a2, idx, size),
                p.1,
            )
        }
    }
}

/// At most `n` rounds of growing, stopping once growing halts.
pub open spec fn grow_run(
    s: (Seq<u8>, Seq<bool>, Seq<usize>, Seq<usize>, u64),
    n: nat,
    size: int,
    targets: Seq<usize>,
    cw: i32,
    ns: i32,
) -> (Seq<u8>, Seq<bool>, Seq<usize>, Seq<usize>, u64)
    decreases n,
{
    if n == 0 || grow_halted(s, size) {
        s
    } else {
        grow_run(grow_step(s, size, targets, cw, ns), (n - 1) as nat, size, targets, cw, ns)
    }
}

proof fn lemma_grow_run_next(
    s: (Seq<u8>, Seq<bool>, Seq<usize>, Seq<usize>, u64),
    n: nat,
    size: int,
    targets: Seq<usize>,
    cw: i32,
    ns: i32,
)
    requires
        !grow_halted(grow_run(s, n, size, targets, cw, ns), size),
    ensures
        grow_run(s, n + 1, size, targets, cw, ns) == grow_step(grow_run(s, n, size, targets, cw, ns), size, targets, cw, ns),
    decreases n,
{
    if n > 0 {
        assert(!grow_halted(s, size));
        lemma_grow_run_next(grow_step(s, size, targets, cw, ns), (n - 1) as nat, size, targets, cw, ns);
        assert(grow_run(s, n + 1, size, targets, cw, ns) == grow_run(grow_step(s, size, targets, cw, ns), n, size, targets, cw, ns));
    } else {
        let t = grow_step(s, size, targets, cw, ns);
        assert(grow_run(t, 0, size, targets, cw, ns) == t);
        assert(grow_run(s, 1, size, targets, cw, ns) == grow_run(t, 0, size, targets, cw, ns));
    }
}

proof fn lemma_grow_run_settles(
    s: (Seq<u8>, Seq<bool>, Seq<usize>, Seq<usize>, u64),
    a: nat,
    b: nat,
    size: int,
    targets: Seq<usize>,
    cw: i32,
    ns: i32,
)
    requires
        a <= b,
        grow_halted(grow_run(s, a, size, targets, cw, ns), size),
    ensures
        grow_run(s, b, size, targets, cw, ns) == grow_run(s, a, size, targets, cw, ns),
    decreases a,
{
    if a > 0 && !grow_halted(s, size) {
        lemma_grow_run_settles(grow_step(s, size, targets, cw, ns), (a - 1) as nat, (b - 1) as nat, size, targets, cw, ns);
    }
}

/// Growing until it halts (any number of rounds after which it has halted
/// gives the same state).
pub open spec fn grow_out(
    s: (Seq<u8>, Seq<bool>, Seq<usize>, Seq<usize>, u64),
    size: int,
    targets: Seq<usize>,
    cw: i32,
    ns: i32,
) -> (Seq<u8>, Seq<bool>, Seq<usize>, Seq<usize>, u64) {
    grow_run(s, choose|n: nat| grow_halted(#[trigger] grow_run(s, n, size, targets, cw, ns), size), size, targets, cw, ns)
}

/// The seeds of the first `n` rows: (zones, assigned, counts, frontier)
/// with row `r`'s solution cell in zone `r` and its neighbours offered to
/// the frontier, row by row.
pub open spec fn seeded(size: int, cols: Seq<usize>, n: int) -> (Seq<u8>, Seq<bool>, Seq<usize>, Seq<usize>)
    decreases n,
{
    if n <= 0 {
        (
            Seq::new((size * size) as nat, |i: int| 255u8),
            Seq::new((size * size) as nat, |i: int| false),
            Seq::new(size as nat, |i: int| 0usize),
            Seq::empty(),
        )
    } else {
        let p = seeded(size, cols, n - 1);
        let idx = (n - 1) * size + cols[n - 1];
        let a2 = p.1.update(idx, true);
        (p.0.update(idx, (n - 1) as u8), a2, p.2.update(n - 1, 1usize), offer_nbrs(p.3, a2, idx, size))
    }
}

/// The zones grown for a board of `size` with hidden solution `cols` at
/// `difficulty`, from generator state `st`, with the state after: the
/// target sizes are drawn, every row's solution cell seeds its zone, then
/// zones grow until they halt.
pub open spec fn zone_growth(size: int, cols: Seq<usize>, difficulty: u8, st: u64) -> (Seq<u8>, u64) {
    let t = target_sizes(size, difficulty, st);
    let sd = seeded(size, cols, size);
    let g = grow_out((sd.0, sd.1, sd.2, sd.3, t.1), size, t.0, profile(difficulty).0, profile(difficulty).1);
    (g.0, g.4)
}

/// Grows the zones: each row's solution cell seeds the zone of that row's
/// number; then cells next to a zone join one of the neighbouring zones,
/// picked at random from the frontier, each by the best score. Cells that
/// never touch a zone below 16 stay unzoned (255); on boards of at most 16
/// a side every cell gets a zone. A zone's score is an `i32` holding ten
/// times its missing cells (up to `size * size`), so boards stay within
/// 200 million cells.
#[verifier::spinoff_prover]
pub fn generate_zones(size: usize, solution_cols: &Vec<usize>, difficulty: u8, rng: &mut Rng) -> (zones: Vec<u8>)
    requires
        size >= 2,
        size * size <= 200_000_000,
        solution_cols@.len() == size,
        forall|r: int| 0 <= r < size ==> #[trigger] solution_cols@[r] < size,
    ensures
        zones@.len() == size * size,
        forall|r: int| 0 <= r < size ==> zones@[r * size + #[trigger] solution_cols@[r]] == r as u8,
        forall|i: int| 0 <= i < size * size && #[trigger] zones@[i] != 255u8 ==> zones@[i] < size,
        size <= 255 ==> exists|depth: Seq<nat>| zones_connected(zones@, size as int, solution_cols@, depth),
        size <= 16 ==> forall|i: int| 0 <= i < size * size ==> #[trigger] zones@[i] < size,
        zones@ == zone_growth(size as int, solution_cols@, difficulty, old(rng).0).0,
        final(rng).0 == zone_growth(size as int, solution_cols@, difficulty, old(rng).0).1,
{
    let ghost st0 = rng.0;
    let total = size * size;
    let mut zones: Vec<u8> = vec![255u8; total];
    let mut assigned: Vec<bool> = vec![false; total];
    let mut counts: Vec<usize> = vec![0usize; size];
    let targets = target_zone_sizes(size, difficulty, rng);
    let mut frontier: Vec<usize> = Vec::new();
    let mut frontier_mark: Vec<bool> = vec![false; total];
    let (contiguity_weight, noise_spread, _) = difficulty_profile(difficulty);
    let ghost cols = solution_cols@;
    let ghost mut depth: Seq<nat> = Seq::new(total as nat, |i: int| 0nat);
    proof {
        assert(assigned@ =~= Seq::new(total as nat, |i: int| false));
        assert(zones@ =~= Seq::new(total as nat, |i: int| 255u8));
        assert(counts@ =~= Seq::new(size as nat, |i: int| 0usize));
        assert(frontier@ =~= Seq::<usize>::empty());
        lemma_count_true_all_false(total as nat);
        assert forall|i: int| 0 <= i < total implies #[trigger] frontier_mark@[i] == frontier@.contains(i as usize) by {}
        assert forall|z: int| 0 <= z < size implies #[trigger] targets@[z] <= size * size by {
            assert(min_zone(size as int) * (size - 1) >= 0) by (nonlinear_arith)
                requires size >= 2, min_zone(size as int) >= 2;
        }
    }
    let mut zone: usize = 0;
    while zone < size
        invariant
            size >= 2,
            total == size * size,
            total <= 200_000_000,
            zone <= size,
            cols == solution_cols@,
            cols.len() == size,
            forall|r: int| 0 <= r < size ==> #[trigger] cols[r] < size,
            zones@.len() == total,
            assigned@.len() == total,
            counts@.len() == size,
            depth == Seq::new(total as nat, |i: int| 0nat),
            count_true(assigned@) == zone,
            frontier_ok(frontier@, frontier_mark@, total as int),
            forall|i: int| 0 <= i < total && !#[trigger] assigned@[i] ==> zones@[i] == 255u8,
            forall|i: int| 0 <= i < total && #[trigger] assigned@[i] ==> zones@[i] < size && i / (size as int) < zone,
            forall|r: int| 0 <= r < zone ==> #[trigger] assigned@[r * size + cols[r]] && zones@[r * size + cols[r]] == r as u8,
            forall|z: int| 0 <= z < size ==> #[trigger] counts@[z] <= 1,
            forall|i: int| 0 <= i < total && #[trigger] assigned@[i] ==> depth[i] == 0 && is_seed(cols, size as int, i),
            zones@ == seeded(size as int, cols, zone as int).0,
            assigned@ == seeded(size as int, cols, zone as int).1,
            counts@ == seeded(size as int, cols, zone as int).2,
            frontier@ == seeded(size as int, cols, zone as int).3,
        decreases size - zone,
    {
        let col = solution_cols[zone];
        proof {
            lemma_cell_index(zone as int, col as int, size as int);
            assert((zone * size + col) / (size as int) == zone) by (nonlinear_arith)
                requires col < size;
        }
        let idx = zone * size + col;
        proof {
            lemma_count_true_set(assigned@, idx as int);
        }
        let ghost a_old = assigned@;
        let ghost z_old = zones@;
        assert forall|r: int| 0 <= r < zone implies #[trigger] a_old[r * size + cols[r]] && z_old[r * size + cols[r]] == r as u8 by {
            assert(assigned@[r * size + cols[r]]);
        }
        zones[idx] = zone as u8;
        assigned[idx] = true;
        counts[zone] = 1;
        proof {
            assert(is_seed(cols, size as int, idx as int)) by {
                assert(cols[zone as int] == idx - zone * size);
            }
            assert forall|r: int| 0 <= r < zone + 1 implies #[trigger] assigned@[r * size + cols[r]] && zones@[r * size + cols[r]] == r as u8 by {
                if r < zone {
                    lemma_cell_index(r, cols[r] as int, size as int);
                    assert((r * size + cols[r]) / (size as int) == r) by (nonlinear_arith)
                        requires cols[r] < size, 0 <= r;
                    let s_r = r * size + cols[r];
                    assert(a_old[s_r]);
                    assert(z_old[s_r] == r as u8);
                    assert(s_r != idx);
                    assert(zones@[s_r] == z_old[s_r]);
                }
            }
        }
        push_neighbours(idx, size, &mut frontier, &mut frontier_mark, &assigned);
        proof {
            assert(zones@ == seeded(size as int, cols, zone + 1).0 && assigned@ == seeded(size as int, cols, zone + 1).1
                && counts@ == seeded(size as int, cols, zone + 1).2 && frontier@ == seeded(size as int, cols, zone + 1).3) by {
                assert(idx == zone * size + cols[zone as int]);
                assert(zones@ =~= seeded(size as int, cols, zone + 1).0);
                assert(assigned@ =~= seeded(size as int, cols, zone + 1).1);
                assert(counts@ =~= seeded(size as int, cols, zone + 1).2);
                assert(frontier@ =~= seeded(size as int, cols, zone + 1).3);
            }
            assert forall|i: int| 0 <= i < total && #[trigger] assigned@[i] implies depth[i] == 0 && is_seed(cols, size as int, i) by {
                if i == idx {
                    assert(cols[zone as int] == idx - zone * size);
                    assert(is_seed(cols, size as int, idx as int));
                    assert(depth[i] == 0);
                } else {
                    assert(a_old[i]);
                    assert(depth[i] == 0);
                    assert(is_seed(cols, size as int, i));
                }
            }
        }
        zone = zone + 1;
    }
    let mut assigned_count: usize = size;
    let ghost mut stuck = false;
    assert(zone == size);
    assert forall|r: int| 0 <= r < size implies #[trigger] assigned@[r * size + cols[r]] && zones@[r * size + cols[r]]
        == r as u8 by {
        assert(r < zone);
    }
    let ghost init = (zones@, assigned@, counts@, frontier@, rng.0);
    let ghost mut steps: nat = 0;
    let ghost cw = contiguity_weight;
    let ghost ns = noise_spread;
    proof {
        assert forall|i: int| 0 <= i < total && #[trigger] assigned@[i] implies (depth[i] == 0 && is_seed(cols, size as int, i))
            || (depth[i] > 0 && exists|m: int| 0 <= m < 4 && #[trigger] a_linked(zones@, assigned@, size as int, depth, i, m)) by {}
        lemma_count_true_bound(assigned@);
    }
    while assigned_count < total
        invariant
            size >= 2,
            total == size * size,
            total <= 200_000_000,
            cols == solution_cols@,
            cols.len() == size,
            forall|r: int| 0 <= r < size ==> #[trigger] cols[r] < size,
            zones@.len() == total,
            assigned@.len() == total,
            counts@.len() == size,
            targets@.len() == size,
            forall|z: int| 0 <= z < size ==> #[trigger] targets@[z] <= size * size,
            forall|z: int| 0 <= z < size ==> #[trigger] counts@[z] <= assigned_count,
            assigned_count == count_true(assigned@),
            assigned_count <= total,
            frontier_ok(frontier@, frontier_mark@, total as int),
            forall|i: int| 0 <= i < total && !#[trigger] assigned@[i] ==> zones@[i] == 255u8,
            forall|i: int| 0 <= i < total && #[trigger] assigned@[i] ==> zones@[i] < size,
            forall|r: int| 0 <= r < size ==> #[trigger] assigned@[r * size + cols[r]] && zones@[r * size + cols[r]] == r as u8,
            grown_ok(zones@, assigned@, size as int, cols, depth),
            (contiguity_weight, noise_spread) == (profile(difficulty).0, profile(difficulty).1),
            stuck ==> forall|i: int|
                0 <= i < total && !#[trigger] assigned@[i] ==> cand_list(i, size as int, zones@, assigned@, 4).len() == 0,
            cw == contiguity_weight && ns == noise_spread,
            grow_run(init, steps, size as int, targets@, cw, ns) == (zones@, assigned@, counts@, frontier@, rng.0),
        ensures
            stuck || assigned_count >= total,
            grow_run(init, steps, size as int, targets@, cw, ns) == (zones@, assigned@, counts@, frontier@, rng.0),
            grow_halted((zones@, assigned@, counts@, frontier@, rng.0), size as int),
        decreases total - assigned_count, frontier@.len(),
    {
        let ghost was_empty = frontier.len() == 0;
        let ghost cur = (zones@, assigned@, counts@, frontier@, rng.0);
        if frontier.len() == 0 {
            let mut j: usize = 0;
            while j < total
                invariant
                    size >= 2,
                    total == size * size,
                    total <= 200_000_000,
                    j <= total,
                    zones@.len() == total,
                    assigned@.len() == total,
                    frontier_ok(frontier@, frontier_mark@, total as int),
                    forall|e: int| 0 <= e < frontier@.len() ==> !assigned@[#[trigger] frontier@[e] as int]
                        && cand_list(frontier@[e] as int, size as int, zones@, assigned@, 4).len() > 0,
                    forall|i: int|
                        0 <= i < j && !#[trigger] assigned@[i] && cand_list(i, size as int, zones@, assigned@, 4).len() > 0
                            ==> frontier@.contains(i as usize),
                    frontier@ == refill_upto(zones@, assigned@, size as int, j as int),
                decreases total - j,
            {
                proof {
                    lemma_refill_below(zones@, assigned@, size as int, j as int);
                    if frontier@.contains(j as usize) {
                        let q = choose|q: int| 0 <= q < frontier@.len() && frontier@[q] == j as usize;
                        assert(frontier@[q] < j);
                    }
                }
                if !assigned[j] {
                    let cands = candidate_zones_for_cell(j, size, &zones, &assigned);
                    if cands.len() > 0 {
                        let ghost fb = frontier@;
                        push_frontier(j, total, &mut frontier, &mut frontier_mark, &assigned);
                        proof {
                            assert(frontier@.contains(j as usize)) by {
                                if frontier@ == fb {
                                    assert(frontier_mark@[j as int]);
                                } else {
                                    assert(frontier@[fb.len() as int] == j);
                                }
                            }
                            assert forall|i: int|
                                0 <= i < j && !#[trigger] assigned@[i] && cand_list(i, size as int, zones@, assigned@, 4).len() > 0
                                    implies frontier@.contains(i as usize) by {
                                assert(fb.contains(i as usize));
                                let q = choose|q: int| 0 <= q < fb.len() && fb[q] == i as usize;
                                assert(frontier@[q] == i as usize);
                            }
                        }
                    }
                }
                j = j + 1;
            }
            if frontier.len() == 0 {
                proof {
                    assert(grow_frontier(cur, size as int).len() == 0);
                    stuck = true;
                    assert forall|i: int| 0 <= i < total && !#[trigger] assigned@[i] implies cand_list(
                        i,
                        size as int,
                        zones@,
                        assigned@,
                        4,
                    ).len() == 0 by {
                        if cand_list(i, size as int, zones@, assigned@, 4).len() > 0 {
                            assert(frontier@.contains(i as usize));
                        }
                    }
                }
                break;
            }
        }
        let ghost f0 = frontier@;
        let ghost m0 = frontier_mark@;
        assert(f0 == grow_frontier(cur, size as int));
        assert(!grow_halted(cur, size as int));
        let ghost nxt = grow_step(cur, size as int, targets@, cw, ns);
        proof {
            lemma_grow_run_next(init, steps, size as int, targets@, cw, ns);
        }
        let fi = rng.gen_range(frontier.len());
        let idx = frontier.swap_remove(fi);
        frontier_mark[idx] = false;
        proof {
            lemma_swap_remove_ok(f0, m0, total as int, fi as int);
            assert(frontier_mark@ == m0.update(f0[fi as int] as int, false));
        }
        if assigned[idx] {
            proof {
                assert((zones@, assigned@, counts@, frontier@, rng.0) == nxt);
                steps = steps + 1;
            }
            continue;
        }
        let candidates = candidate_zones_for_cell(idx, size, &zones, &assigned);
        if candidates.len() == 0 {
            proof {
                assert((zones@, assigned@, counts@, frontier@, rng.0) == nxt);
                steps = steps + 1;
            }
            continue;
        }
        let ghost st2 = rng.0;
        let ghost f2 = frontier@;
        proof {
            assert forall|j: int| 0 <= j < candidates@.len() implies #[trigger] candidates@[j] < size by {
                lemma_cand_from_nbr(idx as int, size as int, zones@, assigned@, 4, j);
                let m = choose|m: int| 0 <= m < 4 && #[trigger] nbr_gives(idx as int, size as int, zones@, assigned@, m, candidates@[j]);
                lemma_nbr_in_range(idx as int, size as int, m);
            }
            lemma_count_true_bound(assigned@);
        }
        let best_zone = choose_zone(
            idx,
            size,
            &zones,
            &assigned,
            &targets,
            &counts,
            &candidates,
            contiguity_weight,
            noise_spread,
            rng,
        );
        let ghost zones0 = zones@;
        let ghost assigned0 = assigned@;
        let ghost depth0 = depth;
        proof {
            let j = choose|j: int| 0 <= j < candidates@.len() && candidates@[j] == best_zone;
            lemma_cand_from_nbr(idx as int, size as int, zones@, assigned@, 4, j);
            let m = choose|m: int| 0 <= m < 4 && #[trigger] nbr_gives(idx as int, size as int, zones@, assigned@, m, best_zone);
            lemma_nbr_in_range(idx as int, size as int, m);
            let n = nbr(idx as int, size as int, m)->0;
            depth = depth.update(idx as int, depth[n] + 1);
            lemma_grown_persists(zones0, assigned0, size as int, cols, depth0, idx as int, best_zone as u8, depth0[n] + 1);
            lemma_count_true_set(assigned@, idx as int);
            lemma_count_true_bound(assigned@.update(idx as int, true));
        }
        zones[idx] = best_zone as u8;
        counts[best_zone] = counts[best_zone] + 1;
        assigned[idx] = true;
        assigned_count = assigned_count + 1;
        proof {
            let j = choose|j: int| 0 <= j < candidates@.len() && candidates@[j] == best_zone;
            lemma_cand_from_nbr(idx as int, size as int, zones0, assigned0, 4, j);
            let m = choose|m: int| 0 <= m < 4 && #[trigger] nbr_gives(idx as int, size as int, zones0, assigned0, m, best_zone);
            assert(a_linked(zones@, assigned@, size as int, depth, idx as int, m));
            assert forall|i: int| 0 <= i < total && #[trigger] assigned@[i] implies (depth[i] == 0 && is_seed(cols, size as int, i))
                || (depth[i] > 0 && exists|m: int| 0 <= m < 4 && #[trigger] a_linked(zones@, assigned@, size as int, depth, i, m)) by {
                if i != idx {
                    assert(assigned0[i]);
                }
            }
            assert forall|r: int| 0 <= r < size implies #[trigger] assigned@[r * size + cols[r]] && zones@[r * size + cols[r]] == r as u8 by {
                lemma_cell_index(r, cols[r] as int, size as int);
                assert(assigned0[r * size + cols[r]]);
            }
        }
        push_neighbours(idx, size, &mut frontier, &mut frontier_mark, &assigned);
        proof {
            assert(zones@ =~= nxt.0);
            assert(assigned@ =~= nxt.1);
            assert(counts@ =~= nxt.2);
            assert(frontier@ =~= nxt.3);
            assert(rng.0 == nxt.4);
            steps = steps + 1;
        }
    }
    proof {
        let fin = (zones@, assigned@, counts@, frontier@, rng.0);
        let n = choose|n: nat| grow_halted(#[trigger] grow_run(init, n, size as int, targets@, cw, ns), size as int);
        assert(grow_halted(grow_run(init, steps, size as int, targets@, cw, ns), size as int));
        if n <= steps {
            lemma_grow_run_settles(init, n, steps, size as int, targets@, cw, ns);
        } else {
            lemma_grow_run_settles(init, steps, n, size as int, targets@, cw, ns);
        }
        assert(grow_out(init, size as int, targets@, cw, ns) == fin);
    }
    proof {
        if size <= 16 {
            lemma_count_true_bound(assigned@);
            assert forall|i: int| 0 <= i < total implies #[trigger] assigned@[i] by {
                if !assigned@[i] {
                    assert(stuck);
                    lemma_nbr_in_range(i, size as int, 0);
                    let r = i / (size as int);
                    let c = i % (size as int);
                    lemma_cell_index(r, cols[r] as int, size as int);
                    let (v, m) = lemma_row_edge(assigned@, size as int, r, c, cols[r] as int);
                    let n = nbr(v, size as int, m)->0;
                    lemma_nbr_in_range(v, size as int, m);
                    assert(zones@[n] < size);
                    lemma_cand_nonempty(v, size as int, zones@, assigned@, 4, m);
                    assert(cand_list(v, size as int, zones@, assigned@, 4).len() == 0);
                }
            }
            assert forall|i: int| 0 <= i < size * size implies #[trigger] zones@[i] < size by {
                assert(assigned@[i]);
            }
        }
        assert forall|r: int| 0 <= r < size implies zones@[r * size + #[trigger] solution_cols@[r]] == r as u8 by {
            assert(assigned@[r * size + cols[r]]);
        }
        assert forall|i: int| 0 <= i < size * size && #[trigger] zones@[i] != 255u8 implies zones@[i] < size by {
            if !assigned@[i] {
                assert(zones@[i] == 255u8);
            }
        }
        if size <= 255 {
            assert(zones_connected(zones@, size as int, solution_cols@, depth)) by {
                assert forall|i: int| 0 <= i < zones@.len() && zones@[i] != 255u8 implies (#[trigger] depth[i] == 0 && is_seed(cols, size as int, i))
                    || (depth[i] > 0 && exists|m: int| 0 <= m < 4 && #[trigger] linked(zones@, size as int, depth, i, m)) by {
                    assert(assigned@[i]);
                    if !(depth[i] == 0 && is_seed(cols, size as int, i)) {
                        let m = choose|m: int| 0 <= m < 4 && #[trigger] a_linked(zones@, assigned@, size as int, depth, i, m);
                        assert(linked(zones@, size as int, depth, i, m));
                    }
                }
            }
        }
    }
    zones
}

/// A generated board is sound: its zone and solution tables have a cell
/// each, on boards of at most 16 a side every cell lies in a zone, the
/// solution mask marks one cell per row, each in the zone of its row's number, and
/// the board has that solution as its only one, unless no board with a
/// unique solution turned up (then the hidden placement may even break the
/// rules, as on boards too small for any).
pub open spec fn board_ok(spec: AnimalPuzzleSpec, unique: bool) -> bool {
    let size = spec.size as int;
    &&& spec.zones@.len() == size * size
    &&& spec.solution@.len() == size * size
    &&& spec.animal_kind < ANIMAL_KIND_COUNT
    &&& size <= 16 ==> forall|i: int| 0 <= i < size * size ==> #[trigger] spec.zones@[i] < size
    &&& exists|cols: Seq<usize>|
        {
            &&& cols.len() == size
            &&& forall|r: int| 0 <= r < size ==> #[trigger] cols[r] < size
            &&& spec.solution@ == mask_of(cols, size)
            &&& forall|r: int| 0 <= r < size ==> spec.zones@[r * size + #[trigger] cols[r]] == r as u8
            &&& unique ==> valid_solution(cols, size) && solution_count(spec.zones@, size) == 1
        }
}

/// Up to `left` attempts at a board with a unique solution, from generator
/// state `st`: a hidden solution is drawn (an attempt without one is
/// spent), zones are grown around it, and the board is kept when it has
/// exactly one solution. The solution and zones kept (if any) and the state
/// after.
pub open spec fn puzzle_attempts(size: int, difficulty: u8, st: u64, left: nat) -> (Option<(Seq<usize>, Seq<u8>)>, u64)
    decreases left,
{
    if left == 0 {
        (None, st)
    } else {
        let sc = solution_search(size, Seq::empty(), st);
        match sc.0 {
            None => puzzle_attempts(size, difficulty, sc.1, (left - 1) as nat),
            Some(cols) => {
                let z = zone_growth(size, cols, difficulty, sc.1);
                if solution_count(z.0, size) == 1 {
                    (Some((cols, z.0)), z.1)
                } else {
                    puzzle_attempts(size, difficulty, z.1, (left - 1) as nat)
                }
            },
        }
    }
}

/// The board generated for `size` and `difficulty` from generator state
/// `st`: the hidden solution, the zones, the animal kind and the state
/// after. Without a unique board within the difficulty's budget plus
/// `size * size` attempts, one more solution is drawn (the diagonal where
/// none exists) and zones grown around it; the kind is drawn last.
pub open spec fn generated_puzzle(size: int, difficulty: u8, st: u64) -> (Seq<usize>, Seq<u8>, u8, u64) {
    let a = puzzle_attempts(size, difficulty, st, (profile(difficulty).2 + size * size) as nat);
    let b: (Seq<usize>, Seq<u8>, u64) = match a.0 {
        Some(p) => (p.0, p.1, a.1),
        None => {
            let sc = solution_search(size, Seq::empty(), a.1);
            let cols = match sc.0 {
                Some(c) => c,
                None => Seq::new(size as nat, |r: int| (r % size) as usize),
            };
            let z = zone_growth(size, cols, difficulty, sc.1);
            (cols, z.0, z.1)
        },
    };
    let st3 = xorshift(b.2);
    (b.0, b.1, (st3 % 9) as u8, st3)
}

/// Generates a board of `size` by `size`: tries hidden solutions and zone
/// layouts until one has a unique solution, at most the difficulty's
/// budget plus `size * size` times; otherwise keeps one more layout
/// without that check. Boards stay within 200 million cells, as the zone
/// scores of `generate_zones` are `i32`.
pub fn generate_puzzle_spec(size: usize, difficulty: u8, rng: &mut Rng) -> (r: AnimalPuzzleSpec)
    requires
        size >= 2,
        size * size <= 200_000_000,
    ensures
        r.size == size,
        r.difficulty == difficulty,
        board_ok(r, false),
        r.zones@ == generated_puzzle(size as int, difficulty, old(rng).0).1,
        r.solution@ == mask_of(generated_puzzle(size as int, difficulty, old(rng).0).0, size as int),
        r.animal_kind == generated_puzzle(size as int, difficulty, old(rng).0).2,
        final(rng).0 == generated_puzzle(size as int, difficulty, old(rng).0).3,
{
    proof {
        assert(size <= 15000) by (nonlinear_arith)
            requires size * size <= 200_000_000;
    }
    let ghost g = generated_puzzle(size as int, difficulty, rng.0);
    let (_, _, base_attempts) = difficulty_profile(difficulty);
    let attempts = base_attempts + size * size;
    let ghost tgt = puzzle_attempts(size as int, difficulty, rng.0, attempts as nat);
    let mut attempt: usize = 0;
    while attempt < attempts
        invariant
            puzzle_attempts(size as int, difficulty, rng.0, (attempts - attempt) as nat) == tgt,
            attempts == profile(difficulty).2 + size * size,
            tgt == puzzle_attempts(size as int, difficulty, old(rng).0, attempts as nat),
            g == generated_puzzle(size as int, difficulty, old(rng).0),
            size >= 2,
            size <= 15000,
            size * size <= 200_000_000,
            attempt <= attempts,
        decreases attempts - attempt,
    {
        attempt = attempt + 1;
        let solution_cols = match generate_solution_cols(size, rng) {
            Some(c) => c,
            None => {
                continue;
            },
        };
        let zones = generate_zones(size, &solution_cols, difficulty, rng);
        if count_solutions(&zones, size, 2) == 1 {
            assert(tgt == (Some((solution_cols@, zones@)), rng.0));
            let animal_kind = rng.gen_range(ANIMAL_KIND_COUNT as usize) as u8;
            let solution = solution_mask_from_cols(&solution_cols, size);
            let r = AnimalPuzzleSpec { size, difficulty, animal_kind, zones, solution };
            proof {
                let cols = solution_cols@;
                assert(solution_count(r.zones@, size as int) == 1);
                assert(board_ok(r, true));
                assert(board_ok(r, false));
            }
            return r;
        }
    }
    assert(tgt == (None::<(Seq<usize>, Seq<u8>)>, rng.0));
    let solution_cols = match generate_solution_cols(size, rng) {
        Some(c) => c,
        None => {
            let mut diag: Vec<usize> = Vec::new();
            let mut row: usize = 0;
            while row < size
                invariant
                    row <= size,
                    diag@.len() == row,
                    forall|r: int| 0 <= r < row ==> #[trigger] diag@[r] < size,
                    diag@ == Seq::new(row as nat, |r: int| (r % (size as int)) as usize),
                decreases size - row,
            {
                diag.push(row % size);
                row = row + 1;
                assert(diag@ =~= Seq::new(row as nat, |r: int| (r % (size as int)) as usize));
            }
            diag
        },
    };
    let zones = generate_zones(size, &solution_cols, difficulty, rng);
    let animal_kind = rng.gen_range(ANIMAL_KIND_COUNT as usize) as u8;
    let solution = solution_mask_from_cols(&solution_cols, size);
    let r = AnimalPuzzleSpec { size, difficulty, animal_kind, zones, solution };
    proof {
        let cols = solution_cols@;
        assert(board_ok(r, false));
    }
    r
}
} // verus!
