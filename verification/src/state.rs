//! The grid state machine: a 64x64 toroidal field of boolean cells,
//! neighbor counting with wraparound, and whole-grid generation steps.

use vstd::prelude::*;

verus! {

/// A grid is modelled as a sequence of 64 rows, each a sequence of 64 cells.
pub open spec fn grid_wf(g: Seq<Seq<bool>>) -> bool {
    &&& g.len() == 64
    &&& forall|r: int| 0 <= r < 64 ==> (#[trigger] g[r]).len() == 64
}

/// The grid whose cells are all dead.
pub open spec fn dead_grid() -> Seq<Seq<bool>> {
    Seq::new(64, |r: int| Seq::new(64, |c: int| false))
}

/// One step down in a coordinate, wrapping 0 around to 63.
pub open spec fn wrap_dec(i: int) -> int {
    if i == 0 {
        63
    } else {
        i - 1
    }
}

/// One step up in a coordinate, wrapping 63 around to 0.
pub open spec fn wrap_inc(i: int) -> int {
    if i == 63 {
        0
    } else {
        i + 1
    }
}

/// 1 when the cell at (r, c) is alive, 0 otherwise.
pub open spec fn live(g: Seq<Seq<bool>>, r: int, c: int) -> int {
    if g[r][c] {
        1
    } else {
        0
    }
}

/// The number of live cells among the 8 toroidal neighbors of (r, c).
pub open spec fn neighbor_count(g: Seq<Seq<bool>>, r: int, c: int) -> int {
    live(g, wrap_dec(r), wrap_dec(c)) + live(g, wrap_dec(r), c) + live(g, wrap_dec(r), wrap_inc(c))
        + live(g, r, wrap_dec(c)) + live(g, r, wrap_inc(c)) + live(g, wrap_inc(r), wrap_dec(c))
        + live(g, wrap_inc(r), c) + live(g, wrap_inc(r), wrap_inc(c))
}

/// The survival/birth rule: a live cell with 2 or 3 live neighbors survives,
/// a dead cell with exactly 3 live neighbors is born, anything else is dead.
pub open spec fn next_cell(alive: bool, n: int) -> bool {
    if alive {
        n == 2 || n == 3
    } else {
        n == 3
    }
}

/// The next generation: every cell judged against the current grid.
pub open spec fn step(g: Seq<Seq<bool>>) -> Seq<Seq<bool>> {
    Seq::new(64, |r: int| Seq::new(64, |c: int| next_cell(g[r][c], neighbor_count(g, r, c))))
}

/// The row or column one step down from `i`, wrapping 0 around to 63.
fn wrap_down(i: usize) -> (r: usize)
    requires
        i < 64,
    ensures
        r as int == wrap_dec(i as int),
        r < 64,
{
    if i == 0 {
        63
    } else {
        i - 1
    }
}

/// The row or column one step up from `i`, wrapping 63 around to 0.
fn wrap_up(i: usize) -> (r: usize)
    requires
        i < 64,
    ensures
        r as int == wrap_inc(i as int),
        r < 64,
{
    if i == 63 {
        0
    } else {
        i + 1
    }
}

/// The simulation state: exactly 64 rows of exactly 64 boolean cells.
#[derive(Debug)]
pub struct State {
    grid: Vec<Vec<bool>>,
}

impl View for State {
    type V = Seq<Seq<bool>>;

    closed spec fn view(&self) -> Seq<Seq<bool>> {
        self.grid.deep_view()
    }
}

impl State {
    /// The grid always holds exactly 64 rows of 64 cells.
    pub open spec fn wf(&self) -> bool {
        grid_wf(self@)
    }

    /// A fresh state with every cell dead.
    pub fn new() -> (s: State)
        ensures
            s.wf(),
            s@ == dead_grid(),
    {
        let mut grid: Vec<Vec<bool>> = Vec::new();
        for r in 0..64usize
            invariant
                grid@.len() == r,
                forall|i: int| 0 <= i < r ==> (#[trigger] grid@[i])@ == Seq::new(64, |c: int| false),
        {
            let mut row: Vec<bool> = Vec::new();
            for c in 0..64usize
                invariant
                    row@.len() == c,
                    forall|j: int| 0 <= j < c ==> !(#[trigger] row@[j]),
            {
                row.push(false);
            }
            proof {
                assert(row@ =~= Seq::new(64, |c: int| false));
            }
            grid.push(row);
        }
        let s = State { grid };
        proof {
            assert(s@ =~~= dead_grid());
        }
        s
    }

    /// Whether the cell at (row, col) is alive.
    pub fn get(&self, row: usize, col: usize) -> (alive: bool)
        requires
            self.wf(),
            row < 64,
            col < 64,
        ensures
            alive == self@[row as int][col as int],
    {
        proof {
            assert(self.grid@.len() == self@.len());
            assert(self.grid@[row as int]@.len() == self@[row as int].len());
        }
        self.grid[row][col]
    }

    /// Sets the cell at (row, col), leaving every other cell as it was.
    pub fn set(&mut self, row: usize, col: usize, alive: bool)
        requires
            old(self).wf(),
            row < 64,
            col < 64,
        ensures
            final(self).wf(),
            final(self)@ == old(self)@.update(
                row as int,
                old(self)@[row as int].update(col as int, alive),
            ),
    {
        proof {
            assert(self.grid@.len() == self@.len());
            assert(self.grid@[row as int]@.len() == self@[row as int].len());
        }
        self.grid[row][col] = alive;
        proof {
            assert(self@ =~~= old(self)@.update(
                row as int,
                old(self)@[row as int].update(col as int, alive),
            ));
        }
    }

    /// Gets total number of live neighbors next to a grid point, looking at
    /// the 8 toroidally wrapped positions around it.
    pub fn check_neighbors(&self, row: usize, col: usize) -> (n: u8)
        requires
            self.wf(),
            row < 64,
            col < 64,
        ensures
            n as int == neighbor_count(self@, row as int, col as int),
            n <= 8,
    {
        let rm = wrap_down(row);
        let rp = wrap_up(row);
        let cm = wrap_down(col);
        let cp = wrap_up(col);
        let mut n: u8 = 0;
        if self.get(rm, cm) {
            n = n + 1;
        }
        if self.get(rm, col) {
            n = n + 1;
        }
        if self.get(rm, cp) {
            n = n + 1;
        }
        if self.get(row, cm) {
            n = n + 1;
        }
        if self.get(row, cp) {
            n = n + 1;
        }
        if self.get(rp, cm) {
            n = n + 1;
        }
        if self.get(rp, col) {
            n = n + 1;
        }
        if self.get(rp, cp) {
            n = n + 1;
        }
        n
    }

    /// Advances the grid by one cycle. Every cell of the next generation is
    /// computed against the current grid, and the grid is replaced wholesale
    /// only after all 4096 cells have been judged.
    pub fn advance(&mut self)
        requires
            old(self).wf(),
        ensures
            final(self).wf(),
            final(self)@ == step(old(self)@),
    {
        let ghost g: Seq<Seq<bool>> = self@;
        let mut next: Vec<Vec<bool>> = Vec::new();
        for r in 0..64usize
            invariant
                self.wf(),
                self@ == g,
                next@.len() == r,
                forall|i: int| 0 <= i < r ==> (#[trigger] next@[i])@ == step(g)[i],
        {
            let mut row: Vec<bool> = Vec::new();
            for c in 0..64usize
                invariant
                    self.wf(),
                    self@ == g,
                    row@.len() == c,
                    r < 64,
                    forall|j: int|
                        0 <= j < c ==> row@[j] == next_cell(
                            g[r as int][j],
                            neighbor_count(g, r as int, j),
                        ),
            {
                let alive = self.get(r, c);
                let nb = self.check_neighbors(r, c);
                let cell = if alive {
                    nb == 2 || nb == 3
                } else {
                    nb == 3
                };
                row.push(cell);
            }
            proof {
                assert(row@ =~= step(g)[r as int]);
            }
            next.push(row);
        }
        self.grid = next;
        proof {
            assert(self@ =~~= step(g));
        }
    }
}

} // verus!
