//! The cell grid and its step transition: a Game of Life on a fixed-size
//! toroidal grid, together with the compact textual encoding of a grid.
use vstd::prelude::*;
use vstd::arithmetic::div_mod::{lemma_fundamental_div_mod, lemma_fundamental_div_mod_converse,
    lemma_mod_pos_bound};

verus! {

/// The binary life state of a single cell.
#[derive(Clone, Copy, PartialEq, Eq, Structural, Debug)]
pub enum LifeState {
    Alive,
    Dead,
}

/// A single grid cell; it has no identity beyond its position in the grid.
#[derive(Clone, Copy, PartialEq, Eq, Structural, Debug)]
pub struct Cellule {
    pub life_state: LifeState,
}

impl Cellule {
    /// Whether this cell is alive, as a spec-level predicate.
    pub open spec fn spec_alive(self) -> bool {
        self.life_state == LifeState::Alive
    }

    pub fn set_alive(&mut self)
        ensures
            final(self).life_state == LifeState::Alive,
    {
        self.life_state = LifeState::Alive;
    }

    pub fn set_dead(&mut self)
        ensures
            final(self).life_state == LifeState::Dead,
    {
        self.life_state = LifeState::Dead;
    }

    pub fn alive(self) -> (r: bool)
        ensures
            r == self.spec_alive(),
    {
        self.life_state == LifeState::Alive
    }
}

/// The number of live cells in a sequence.
pub open spec fn count_alive(s: Seq<Cellule>) -> int
    decreases s.len(),
{
    if s.len() == 0 {
        0
    } else {
        count_alive(s.drop_last()) + if s.last().spec_alive() {
            1int
        } else {
            0int
        }
    }
}

proof fn lemma_count_alive_take_step(s: Seq<Cellule>, i: int)
    requires
        0 <= i < s.len(),
    ensures
        count_alive(s.take(i + 1)) == count_alive(s.take(i)) + if s[i].spec_alive() {
            1int
        } else {
            0int
        },
{
    assert(s.take(i + 1).drop_last() =~= s.take(i));
    assert(s.take(i + 1).last() == s[i]);
}

impl Cellule {
    pub fn count_alive_neighbors(neighbors: &[Cellule]) -> (r: usize)
        ensures
            r == count_alive(neighbors@),
    {
        let mut count: usize = 0;
        let mut i: usize = 0;
        while i < neighbors.len()
            invariant
                0 <= i <= neighbors@.len(),
                count == count_alive(neighbors@.take(i as int)),
                count <= i,
            decreases neighbors@.len() - i,
        {
            proof {
                lemma_count_alive_take_step(neighbors@, i as int);
            }
            if neighbors[i].alive() {
                count = count + 1;
            }
            i = i + 1;
        }
        proof {
            assert(neighbors@.take(neighbors@.len() as int) =~= neighbors@);
        }
        count
    }

    /// A live cell with fewer than 2 live neighbors dies of isolation.
    pub fn alone(neighbors: &[Cellule]) -> (r: bool)
        ensures
            r == (count_alive(neighbors@) < 2),
    {
        Self::count_alive_neighbors(neighbors) < 2
    }

    /// A live cell with more than 3 live neighbors dies of overpopulation.
    pub fn overpopulated(neighbors: &[Cellule]) -> (r: bool)
        ensures
            r == (count_alive(neighbors@) > 3),
    {
        Self::count_alive_neighbors(neighbors) > 3
    }

    /// A dead cell with exactly 3 live neighbors becomes alive.
    pub fn can_be_revived(neighbors: &[Cellule]) -> (r: bool)
        ensures
            r == (count_alive(neighbors@) == 3),
    {
        Self::count_alive_neighbors(neighbors) == 3
    }
}

/// Toroidal wrap of a coordinate that is off the grid by at most one whole range.
pub open spec fn wrap_spec(coord: int, range: int) -> int {
    if coord < 0 {
        coord + range
    } else if coord >= range {
        coord - range
    } else {
        coord
    }
}

/// Wrap-around coordinate resolution: `-1` maps to `range - 1` and `range`
/// maps to `0`. Only a single wrap in either direction is supported, since
/// neighbor offsets are always exactly plus or minus one.
pub fn wrap(coord: isize, range: isize) -> (r: usize)
    requires
        0 < range,
        -range <= coord < 2 * range,
    ensures
        r == wrap_spec(coord as int, range as int),
        r < range,
{
    let result = if coord < 0 {
        coord + range
    } else if coord >= range {
        coord - range
    } else {
        coord
    };
    result as usize
}

/// The flat index of a cell lies below the grid length.
pub proof fn lemma_flat_idx_bound(r: int, c: int, w: int, h: int)
    requires
        0 <= r < h,
        0 <= c < w,
    ensures
        0 <= r * w + c,
        r * w + c < h * w,
{
    assert(r * w + c < h * w) by (nonlinear_arith)
        requires
            0 <= r < h,
            0 <= c < w,
    ;
    assert(0 <= r * w + c) by (nonlinear_arith)
        requires
            0 <= r,
            0 <= c,
            0 < w,
    ;
}

/// A flat index decomposes uniquely into a row and a column.
pub proof fn lemma_flat_decompose(i: int, w: int, h: int)
    requires
        0 < w,
        0 <= i,
        i < h * w,
    ensures
        0 <= i % w < w,
        0 <= i / w < h,
        (i / w) * w + (i % w) == i,
{
    lemma_fundamental_div_mod(i, w);
    lemma_mod_pos_bound(i, w);
    let q = i / w;
    let r = i % w;
    assert(q * w == w * q) by (nonlinear_arith);
    assert(0 <= q) by (nonlinear_arith)
        requires
            0 <= i,
            0 <= r < w,
            i == w * q + r,
    ;
    assert(q < h) by (nonlinear_arith)
        requires
            i < h * w,
            0 <= r,
            i == w * q + r,
            0 < w,
    ;
}

proof fn lemma_push_contains<T>(s: Seq<T>, v: T, x: T)
    requires
        s.contains(x) || x == v,
    ensures
        s.push(v).contains(x),
{
    if s.contains(x) {
        let k = choose|k: int| 0 <= k < s.len() && s[k] == x;
        assert(s.push(v)[k] == x);
    } else {
        assert(s.push(v)[s.len() as int] == x);
    }
}

/// The flat index of one of the 8 Moore neighbors of cell `(r, c)`, with
/// toroidal wrap-around addressing.
pub open spec fn neighbor_idx(w: int, h: int, r: int, c: int, dr: int, dc: int) -> int {
    wrap_spec(r + dr, h) * w + wrap_spec(c + dc, w)
}

/// The flat indices of the 8 Moore neighbors of cell `(r, c)`.
pub open spec fn neighbor_indices(w: int, h: int, r: int, c: int) -> Seq<int> {
    seq![
        neighbor_idx(w, h, r, c, 1, 0),
        neighbor_idx(w, h, r, c, 1, 1),
        neighbor_idx(w, h, r, c, 1, -1),
        neighbor_idx(w, h, r, c, -1, 0),
        neighbor_idx(w, h, r, c, -1, 1),
        neighbor_idx(w, h, r, c, -1, -1),
        neighbor_idx(w, h, r, c, 0, -1),
        neighbor_idx(w, h, r, c, 0, 1),
    ]
}

/// The 8 Moore neighbors of cell `(r, c)`.
pub open spec fn neighbor_cells(cells: Seq<Cellule>, w: int, h: int, r: int, c: int) -> Seq<
    Cellule,
> {
    neighbor_indices(w, h, r, c).map(|_k: int, j: int| cells[j])
}

/// How many of the 8 Moore neighbors of cell `(r, c)` are alive.
pub open spec fn live_neighbor_count(cells: Seq<Cellule>, w: int, h: int, r: int, c: int) -> int {
    count_alive(neighbor_cells(cells, w, h, r, c))
}

/// Conway's transition rule for the cell at `(r, c)`: a live cell with fewer
/// than 2 or more than 3 live neighbors dies; a dead cell with exactly 3 live
/// neighbors becomes alive; every other cell is unchanged.
pub open spec fn next_cell(cells: Seq<Cellule>, w: int, h: int, r: int, c: int) -> Cellule {
    let n = live_neighbor_count(cells, w, h, r, c);
    let cur = cells[r * w + c];
    if cur.spec_alive() {
        if n < 2 || n > 3 {
            Cellule { life_state: LifeState::Dead }
        } else {
            cur
        }
    } else {
        if n == 3 {
            Cellule { life_state: LifeState::Alive }
        } else {
            cur
        }
    }
}

/// The cell at flat index `i` transitions to dead in the next generation.
pub open spec fn dies(cells: Seq<Cellule>, w: int, h: int, i: int) -> bool {
    let n = live_neighbor_count(cells, w, h, i / w, i % w);
    cells[i].spec_alive() && (n < 2 || n > 3)
}

/// The cell at flat index `i` transitions to alive in the next generation.
pub open spec fn births(cells: Seq<Cellule>, w: int, h: int, i: int) -> bool {
    let n = live_neighbor_count(cells, w, h, i / w, i % w);
    !cells[i].spec_alive() && n == 3
}

/// One whole generation: every cell of the grid, advanced by Conway's rule,
/// with all neighbor counts evaluated against the pre-step grid.
pub open spec fn step_spec(cells: Seq<Cellule>, w: int, h: int) -> Seq<Cellule> {
    Seq::new(cells.len(), |i: int| next_cell(cells, w, h, i / w, i % w))
}

/// A named initial grid, as offered for selection.
#[derive(Clone, Debug, PartialEq)]
pub struct SeedOption {
    pub label: String,
    pub cellules: Vec<Cellule>,
}

/// A grid state as exchanged across the validation boundary, with the cells
/// in their compact textual encoding.
#[derive(Debug)]
pub struct SerializedGameState {
    pub cellules: String,
    pub active: bool,
    pub cellules_width: usize,
    pub cellules_height: usize,
}

/// A grid of cells together with its dimensions. The cells are stored in
/// row-major order: position `(row, col)` lives at flat index
/// `row * width + col`.
#[derive(Debug, Clone)]
pub struct GameState {
    pub active: bool,
    pub cellules: Vec<Cellule>,
    pub cellules_width: usize,
    pub cellules_height: usize,
}

impl Default for GameState {
    fn default() -> (r: Self)
        ensures
            r.active == false,
            r.cellules@.len() == 0,
            r.cellules_width == 0,
            r.cellules_height == 0,
    {
        GameState { active: false, cellules: Vec::new(), cellules_width: 0, cellules_height: 0 }
    }
}

impl GameState {
    /// The grid invariant: the flat cell sequence has exactly
    /// `width * height` entries. The dimension bounds are machine limits of
    /// the signed coordinate arithmetic used for neighbor resolution.
    pub open spec fn wf(self) -> bool {
        &&& self.cellules@.len() == self.cellules_width * self.cellules_height
        &&& self.cellules_width <= isize::MAX
        &&& self.cellules_height <= isize::MAX
    }

    pub fn set_cellules(&mut self, cellules: Vec<Cellule>)
        ensures
            final(self).cellules == cellules,
            final(self).active == old(self).active,
            final(self).cellules_width == old(self).cellules_width,
            final(self).cellules_height == old(self).cellules_height,
    {
        self.cellules = cellules;
    }

    /// Turns every cell of the grid dead.
    pub fn reset(&mut self)
        ensures
            final(self).cellules@ == Seq::new(
                old(self).cellules@.len(),
                |i: int| (Cellule { life_state: LifeState::Dead }),
            ),
            final(self).active == old(self).active,
            final(self).cellules_width == old(self).cellules_width,
            final(self).cellules_height == old(self).cellules_height,
    {
        let ghost cells0 = self.cellules@;
        let n = self.cellules.len();
        let mut i: usize = 0;
        while i < n
            invariant
                i <= n,
                n == self.cellules@.len(),
                self.active == old(self).active,
                self.cellules_width == old(self).cellules_width,
                self.cellules_height == old(self).cellules_height,
                forall|j: int|
                    0 <= j < i ==> self.cellules@[j] == (Cellule { life_state: LifeState::Dead }),
            decreases n - i,
        {
            self.cellules[i] = Cellule { life_state: LifeState::Dead };
            i = i + 1;
        }
        proof {
            assert(self.cellules@ =~= Seq::new(
                old(self).cellules@.len(),
                |i: int| (Cellule { life_state: LifeState::Dead }),
            ));
        }
    }

    fn row_col_as_idx(&self, row: isize, col: isize) -> (r: usize)
        requires
            self.wf(),
            0 < self.cellules_width,
            0 < self.cellules_height,
            -(self.cellules_height as int) <= row as int,
            (row as int) < 2 * (self.cellules_height as int),
            -(self.cellules_width as int) <= col as int,
            (col as int) < 2 * (self.cellules_width as int),
        ensures
            r as int == wrap_spec(row as int, self.cellules_height as int) * (
            self.cellules_width as int) + wrap_spec(col as int, self.cellules_width as int),
            r < self.cellules@.len(),
    {
        let row_w = wrap(row, self.cellules_height as isize);
        let col_w = wrap(col, self.cellules_width as isize);
        let n = self.cellules.len();
        proof {
            lemma_flat_idx_bound(
                row_w as int,
                col_w as int,
                self.cellules_width as int,
                self.cellules_height as int,
            );
            assert((self.cellules_height as int) * (self.cellules_width as int) == (
            self.cellules_width as int) * (self.cellules_height as int)) by (nonlinear_arith);
            assert((row_w as int) * (self.cellules_width as int) + (col_w as int) < n as int);
        }
        row_w * self.cellules_width + col_w
    }

    fn neighbors(&self, row: isize, col: isize) -> (r: [Cellule; 8])
        requires
            self.wf(),
            0 < self.cellules_width,
            0 < self.cellules_height,
            0 <= row as int,
            (row as int) < self.cellules_height as int,
            0 <= col as int,
            (col as int) < self.cellules_width as int,
        ensures
            r@ == neighbor_cells(
                self.cellules@,
                self.cellules_width as int,
                self.cellules_height as int,
                row as int,
                col as int,
            ),
    {
        let arr = [
            self.cellules[self.row_col_as_idx(row + 1, col)],
            self.cellules[self.row_col_as_idx(row + 1, col + 1)],
            self.cellules[self.row_col_as_idx(row + 1, col - 1)],
            self.cellules[self.row_col_as_idx(row - 1, col)],
            self.cellules[self.row_col_as_idx(row - 1, col + 1)],
            self.cellules[self.row_col_as_idx(row - 1, col - 1)],
            self.cellules[self.row_col_as_idx(row, col - 1)],
            self.cellules[self.row_col_as_idx(row, col + 1)],
        ];
        proof {
            let w = self.cellules_width as int;
            let h = self.cellules_height as int;
            assert(arr@ =~= neighbor_cells(self.cellules@, w, h, row as int, col as int));
        }
        arr
    }

    /// Advances the grid by exactly one generation. The full sets of cells
    /// transitioning to dead and to alive are computed from the pre-step grid
    /// before any cell is mutated, so every neighbor count is evaluated
    /// against a single consistent snapshot of the current generation.
    pub fn step(&mut self)
        requires
            old(self).wf(),
        ensures
            final(self).wf(),
            final(self).active == old(self).active,
            final(self).cellules_width == old(self).cellules_width,
            final(self).cellules_height == old(self).cellules_height,
            final(self).cellules@ == step_spec(
                old(self).cellules@,
                old(self).cellules_width as int,
                old(self).cellules_height as int,
            ),
    {
        let ghost cells0 = self.cellules@;
        let ghost wi = self.cellules_width as int;
        let ghost hi = self.cellules_height as int;
        let w = self.cellules_width;
        let h = self.cellules_height;
        let len = self.cellules.len();
        let mut to_dead: Vec<usize> = Vec::new();
        let mut to_live: Vec<usize> = Vec::new();
        let mut row: usize = 0;
        let mut col: usize = 0;
        let mut idx: usize = 0;
        while idx < len
            invariant
                *self == *old(self),
                self.wf(),
                w == self.cellules_width,
                h == self.cellules_height,
                wi == w as int,
                hi == h as int,
                len == self.cellules@.len(),
                cells0 == self.cellules@,
                idx as int == row * w + col,
                idx <= len,
                len > 0 ==> col < w && row <= h,
                len == 0 ==> idx == 0,
                forall|k: int|
                    0 <= k < to_dead@.len() ==> #[trigger] to_dead@[k] < len && dies(
                        cells0,
                        wi,
                        hi,
                        to_dead@[k] as int,
                    ),
                forall|j: int|
                    0 <= j < idx && dies(cells0, wi, hi, j) ==> to_dead@.contains(j as usize),
                forall|k: int|
                    0 <= k < to_live@.len() ==> #[trigger] to_live@[k] < len && births(
                        cells0,
                        wi,
                        hi,
                        to_live@[k] as int,
                    ),
                forall|j: int|
                    0 <= j < idx && births(cells0, wi, hi, j) ==> to_live@.contains(j as usize),
            decreases len - idx,
        {
            proof {
                assert(w > 0 && h > 0) by (nonlinear_arith)
                    requires
                        len > 0,
                        len == w * h,
                ;
                assert(row < h) by (nonlinear_arith)
                    requires
                        (row as int) * (w as int) + col < (h as int) * (w as int),
                        0 <= col < w,
                        0 < w,
                        0 <= row <= h,
                ;
            }
            let neighbors_arr = self.neighbors(row as isize, col as isize);
            let current_idx = self.row_col_as_idx(row as isize, col as isize);
            proof {
                lemma_fundamental_div_mod_converse(idx as int, wi, row as int, col as int);
            }
            assert(current_idx == idx);
            let lonely = Cellule::alone(&neighbors_arr);
            let crowded = Cellule::overpopulated(&neighbors_arr);
            let fertile = Cellule::can_be_revived(&neighbors_arr);
            let is_alive = self.cellules[current_idx].alive();
            proof {
                assert(dies(cells0, wi, hi, idx as int) == (is_alive && (lonely || crowded)));
                assert(births(cells0, wi, hi, idx as int) == (!is_alive && fertile));
            }
            let ghost td0 = to_dead@;
            let ghost tl0 = to_live@;
            if is_alive {
                if lonely || crowded {
                    to_dead.push(current_idx);
                }
            } else if fertile {
                to_live.push(current_idx);
            }
            proof {
                assert(to_dead@ == td0 || to_dead@ == td0.push(current_idx));
                assert(to_live@ == tl0 || to_live@ == tl0.push(current_idx));
                assert forall|j: int|
                    0 <= j < idx as int + 1 && dies(cells0, wi, hi, j) implies to_dead@.contains(
                    j as usize,
                ) by {
                    if j < idx as int {
                        assert(td0.contains(j as usize));
                        if to_dead@ == td0.push(current_idx) {
                            lemma_push_contains(td0, current_idx, j as usize);
                        }
                    } else {
                        assert(to_dead@ == td0.push(current_idx));
                        lemma_push_contains(td0, current_idx, current_idx);
                    }
                }
                assert forall|j: int|
                    0 <= j < idx as int + 1 && births(cells0, wi, hi, j) implies to_live@.contains(
                    j as usize,
                ) by {
                    if j < idx as int {
                        assert(tl0.contains(j as usize));
                        if to_live@ == tl0.push(current_idx) {
                            lemma_push_contains(tl0, current_idx, j as usize);
                        }
                    } else {
                        assert(to_live@ == tl0.push(current_idx));
                        lemma_push_contains(tl0, current_idx, current_idx);
                    }
                }
            }
            idx = idx + 1;
            col = col + 1;
            if col == w {
                col = 0;
                row = row + 1;
                proof {
                    assert((row as int) * wi == (row as int - 1) * wi + wi) by (nonlinear_arith);
                }
            }
        }
        let ghost dead_list = to_dead@;
        let ghost live_list = to_live@;
        let mut k: usize = 0;
        while k < to_dead.len()
            invariant
                to_dead@ == dead_list,
                k <= dead_list.len(),
                len == self.cellules@.len(),
                len == cells0.len(),
                self.active == old(self).active,
                self.cellules_width == old(self).cellules_width,
                self.cellules_height == old(self).cellules_height,
                forall|k2: int|
                    0 <= k2 < dead_list.len() ==> #[trigger] dead_list[k2] < len,
                forall|i: int|
                    0 <= i < len ==> #[trigger] self.cellules@[i] == (if (exists|k2: int|
                        0 <= k2 < k && dead_list[k2] == i as usize) {
                        (Cellule { life_state: LifeState::Dead })
                    } else {
                        cells0[i]
                    }),
            decreases to_dead@.len() - k,
        {
            let di = to_dead[k];
            let ghost before = self.cellules@;
            self.cellules[di] = Cellule { life_state: LifeState::Dead };
            proof {
                assert forall|i: int| 0 <= i < len implies #[trigger] self.cellules@[i] == (if (
                exists|k2: int| 0 <= k2 < k as int + 1 && dead_list[k2] == i as usize) {
                    (Cellule { life_state: LifeState::Dead })
                } else {
                    cells0[i]
                }) by {
                    if i == di as int {
                        assert(dead_list[k as int] == i as usize);
                    } else {
                        assert(self.cellules@[i] == before[i]);
                        if exists|k2: int| 0 <= k2 < k as int + 1 && dead_list[k2] == i as usize {
                            let k2 = choose|k2: int|
                                0 <= k2 < k as int + 1 && dead_list[k2] == i as usize;
                            assert(k2 < k as int);
                        }
                    }
                }
            }
            k = k + 1;
        }
        let ghost cells_mid = self.cellules@;
        let mut k: usize = 0;
        while k < to_live.len()
            invariant
                to_live@ == live_list,
                k <= live_list.len(),
                len == self.cellules@.len(),
                len == cells_mid.len(),
                self.active == old(self).active,
                self.cellules_width == old(self).cellules_width,
                self.cellules_height == old(self).cellules_height,
                forall|k2: int|
                    0 <= k2 < live_list.len() ==> #[trigger] live_list[k2] < len,
                forall|i: int|
                    0 <= i < len ==> #[trigger] self.cellules@[i] == (if (exists|k2: int|
                        0 <= k2 < k && live_list[k2] == i as usize) {
                        (Cellule { life_state: LifeState::Alive })
                    } else {
                        cells_mid[i]
                    }),
            decreases to_live@.len() - k,
        {
            let li = to_live[k];
            let ghost before = self.cellules@;
            self.cellules[li] = Cellule { life_state: LifeState::Alive };
            proof {
                assert forall|i: int| 0 <= i < len implies #[trigger] self.cellules@[i] == (if (
                exists|k2: int| 0 <= k2 < k as int + 1 && live_list[k2] == i as usize) {
                    (Cellule { life_state: LifeState::Alive })
                } else {
                    cells_mid[i]
                }) by {
                    if i == li as int {
                        assert(live_list[k as int] == i as usize);
                    } else {
                        assert(self.cellules@[i] == before[i]);
                        if exists|k2: int| 0 <= k2 < k as int + 1 && live_list[k2] == i as usize {
                            let k2 = choose|k2: int|
                                0 <= k2 < k as int + 1 && live_list[k2] == i as usize;
                            assert(k2 < k as int);
                        }
                    }
                }
            }
            k = k + 1;
        }
        proof {
            assert forall|i: int| 0 <= i < len implies #[trigger] self.cellules@[i] == next_cell(
                cells0,
                wi,
                hi,
                i / wi,
                i % wi,
            ) by {
                assert(w > 0 && h > 0) by (nonlinear_arith)
                    requires
                        len > 0,
                        len == w * h,
                ;
                lemma_flat_decompose(i, wi, hi);
                let r = i / wi;
                let c = i % wi;
                assert(cells0[r * wi + c] == cells0[i]);
                if dies(cells0, wi, hi, i) {
                    assert(dead_list.contains(i as usize));
                    assert(cells_mid[i] == (Cellule { life_state: LifeState::Dead }));
                    assert(!births(cells0, wi, hi, i));
                    assert(!live_list.contains(i as usize));
                    assert(self.cellules@[i] == (Cellule { life_state: LifeState::Dead }));
                } else if births(cells0, wi, hi, i) {
                    assert(!dead_list.contains(i as usize));
                    assert(cells_mid[i] == cells0[i]);
                    assert(live_list.contains(i as usize));
                    assert(self.cellules@[i] == (Cellule { life_state: LifeState::Alive }));
                } else {
                    assert(!dead_list.contains(i as usize));
                    assert(!live_list.contains(i as usize));
                    assert(self.cellules@[i] == cells0[i]);
                }
            }
            assert(self.cellules@ =~= step_spec(cells0, wi, hi));
        }
    }

    /// Flips the life state of the cell at flat index `idx`. An out-of-range
    /// index is a caller error, ruled out by the precondition.
    pub fn toggle_cellule(&mut self, idx: usize)
        requires
            idx < old(self).cellules@.len(),
        ensures
            final(self).cellules@ == old(self).cellules@.update(
                idx as int,
                flip(old(self).cellules@[idx as int]),
            ),
            final(self).active == old(self).active,
            final(self).cellules_width == old(self).cellules_width,
            final(self).cellules_height == old(self).cellules_height,
    {
        if self.cellules[idx].alive() {
            self.cellules[idx] = Cellule { life_state: LifeState::Dead };
        } else {
            self.cellules[idx] = Cellule { life_state: LifeState::Alive };
        }
    }
}

/// A cell with the opposite life state.
pub open spec fn flip(c: Cellule) -> Cellule {
    if c.spec_alive() {
        Cellule { life_state: LifeState::Dead }
    } else {
        Cellule { life_state: LifeState::Alive }
    }
}

/// Two grids are identical when they have the same length and the same life
/// state at every index.
pub open spec fn grids_identical(a: Seq<Cellule>, b: Seq<Cellule>) -> bool {
    a.len() == b.len() && forall|i: int| 0 <= i < a.len() ==> a[i] == b[i]
}

/// Grid identity is exactly sequence equality.
pub proof fn lemma_grids_identical_iff_eq(a: Seq<Cellule>, b: Seq<Cellule>)
    ensures
        grids_identical(a, b) <==> a == b,
{
    if grids_identical(a, b) {
        assert(a =~= b);
    }
}

pub(crate) fn grids_equal(a: &Vec<Cellule>, b: &Vec<Cellule>) -> (r: bool)
    ensures
        r == grids_identical(a@, b@),
{
    if a.len() != b.len() {
        return false;
    }
    let n = a.len();
    let mut i: usize = 0;
    while i < n
        invariant
            i <= n,
            n == a@.len(),
            n == b@.len(),
            forall|j: int| 0 <= j < i ==> a@[j] == b@[j],
        decreases n - i,
    {
        if a[i].life_state != b[i].life_state {
            return false;
        }
        i = i + 1;
    }
    true
}

/// Cell-by-cell comparison of two grids over their full length.
pub fn game_grids_are_identical(grid_a: Vec<Cellule>, grid_b: Vec<Cellule>) -> (r: bool)
    ensures
        r == grids_identical(grid_a@, grid_b@),
{
    grids_equal(&grid_a, &grid_b)
}

/// A copy of a grid's cells.
pub fn clone_cellules(v: &Vec<Cellule>) -> (r: Vec<Cellule>)
    ensures
        r@ == v@,
{
    let mut r: Vec<Cellule> = Vec::new();
    let n = v.len();
    let mut i: usize = 0;
    while i < n
        invariant
            i <= n,
            n == v@.len(),
            r@ =~= v@.take(i as int),
        decreases n - i,
    {
        r.push(v[i]);
        i = i + 1;
    }
    proof {
        assert(v@.take(n as int) =~= v@);
    }
    r
}

/// The compact textual encoding of a grid: one character per cell, `'1'` for
/// a live cell and `'0'` for a dead one, in flat row-major order.
pub open spec fn serialize_spec(cells: Seq<Cellule>) -> Seq<char> {
    Seq::new(
        cells.len(),
        |i: int|
            if cells[i].spec_alive() {
                '1'
            } else {
                '0'
            },
    )
}

/// The decoding of a textual grid: one cell per character, `'1'` giving a
/// live cell and every other character a dead one.
pub open spec fn deserialize_spec(s: Seq<char>) -> Seq<Cellule> {
    Seq::new(
        s.len(),
        |i: int|
            Cellule {
                life_state: if s[i] == '1' {
                    LifeState::Alive
                } else {
                    LifeState::Dead
                },
            },
    )
}

/// Round trip: decoding the encoding of any grid gives the grid back.
pub proof fn lemma_serialize_round_trip(cells: Seq<Cellule>)
    ensures
        deserialize_spec(serialize_spec(cells)) == cells,
{
    assert forall|i: int| 0 <= i < cells.len() implies deserialize_spec(serialize_spec(cells))[i]
        == cells[i] by {
        if cells[i].spec_alive() {
            assert(cells[i] == Cellule { life_state: LifeState::Alive });
        } else {
            assert(cells[i] == Cellule { life_state: LifeState::Dead });
        }
    }
    assert(deserialize_spec(serialize_spec(cells)) =~= cells);
}

pub fn serialize_cellules_to_string(cellules: Vec<Cellule>) -> (r: String)
    ensures
        r@ == serialize_spec(cellules@),
{
    let mut s = String::new();
    let n = cellules.len();
    let mut i: usize = 0;
    while i < n
        invariant
            i <= n,
            n == cellules@.len(),
            s@ =~= serialize_spec(cellules@).take(i as int),
        decreases n - i,
    {
        proof {
            reveal_strlit("0");
            reveal_strlit("1");
        }
        if cellules[i].alive() {
            s.append("1");
        } else {
            s.append("0");
        }
        i = i + 1;
    }
    proof {
        assert(serialize_spec(cellules@).take(n as int) =~= serialize_spec(cellules@));
    }
    s
}

pub fn deserialize_string_into_cellules(cellules_string: String) -> (r: Vec<Cellule>)
    ensures
        r@ == deserialize_spec(cellules_string@),
{
    let s = cellules_string.as_str();
    let n = s.unicode_len();
    let mut r: Vec<Cellule> = Vec::new();
    let mut i: usize = 0;
    while i < n
        invariant
            i <= n,
            n == s@.len(),
            s@ == cellules_string@,
            r@ =~= deserialize_spec(cellules_string@).take(i as int),
        decreases n - i,
    {
        let c = s.get_char(i);
        if c == '1' {
            r.push(Cellule { life_state: LifeState::Alive });
        } else {
            r.push(Cellule { life_state: LifeState::Dead });
        }
        i = i + 1;
    }
    proof {
        assert(deserialize_spec(cellules_string@).take(n as int) =~= deserialize_spec(
            cellules_string@,
        ));
    }
    r
}

/// The cell the step transition writes at position `(r, c)`.
pub proof fn lemma_step_spec_at(cells: Seq<Cellule>, w: int, h: int, r: int, c: int)
    requires
        cells.len() == w * h,
        0 <= r < h,
        0 <= c < w,
    ensures
        0 <= r * w + c < cells.len(),
        step_spec(cells, w, h)[r * w + c] == next_cell(cells, w, h, r, c),
{
    lemma_flat_idx_bound(r, c, w, h);
    assert(h * w == w * h) by (nonlinear_arith);
    lemma_fundamental_div_mod_converse(r * w + c, w, r, c);
}

/// Determinism: the step transition is a function of the cell contents and
/// the dimensions alone, so two independently constructed but cell-identical
/// grids step to cell-identical grids.
pub proof fn lemma_step_deterministic(a: Seq<Cellule>, b: Seq<Cellule>, w: int, h: int)
    requires
        grids_identical(a, b),
    ensures
        grids_identical(step_spec(a, w, h), step_spec(b, w, h)),
{
    lemma_grids_identical_iff_eq(a, b);
    lemma_grids_identical_iff_eq(step_spec(a, w, h), step_spec(b, w, h));
}

/// Wrap correctness: the neighborhood of the top-left cell `(0, 0)` includes
/// the bottom-right cell `(h-1, w-1)` as its diagonal wrap neighbor, and the
/// neighborhood of `(h-1, w-1)` includes `(0, 0)`.
pub proof fn lemma_corner_wrap(w: int, h: int)
    requires
        0 < w,
        0 < h,
    ensures
        neighbor_indices(w, h, 0, 0).contains((h - 1) * w + (w - 1)),
        neighbor_indices(w, h, h - 1, w - 1).contains(0),
{
    assert(neighbor_indices(w, h, 0, 0)[5] == neighbor_idx(w, h, 0, 0, -1, -1));
    assert(neighbor_idx(w, h, 0, 0, -1, -1) == (h - 1) * w + (w - 1));
    assert(neighbor_indices(w, h, h - 1, w - 1)[1] == neighbor_idx(w, h, h - 1, w - 1, 1, 1));
    assert(wrap_spec(h - 1 + 1, h) == 0);
    assert(wrap_spec(w - 1 + 1, w) == 0);
    assert(0 * w == 0) by (nonlinear_arith);
    assert(neighbor_idx(w, h, h - 1, w - 1, 1, 1) == 0);
}

/// Rule correctness, cell by cell: a live cell with exactly 2 or 3 live
/// neighbors survives; with fewer than 2 or more than 3 it dies; a dead cell
/// with exactly 3 live neighbors becomes alive; every other dead cell stays
/// dead.
pub proof fn lemma_conway_rule(cells: Seq<Cellule>, w: int, h: int, r: int, c: int)
    requires
        cells.len() == w * h,
        0 <= r < h,
        0 <= c < w,
    ensures
        ({
            let n = live_neighbor_count(cells, w, h, r, c);
            let cur = cells[r * w + c];
            let next = step_spec(cells, w, h)[r * w + c];
            &&& (cur.spec_alive() && (n == 2 || n == 3)) ==> next.spec_alive()
            &&& (cur.spec_alive() && (n < 2 || n > 3)) ==> !next.spec_alive()
            &&& (!cur.spec_alive() && n == 3) ==> next.spec_alive()
            &&& (!cur.spec_alive() && n != 3) ==> !next.spec_alive()
        }),
{
    lemma_step_spec_at(cells, w, h, r, c);
}

} // verus!

