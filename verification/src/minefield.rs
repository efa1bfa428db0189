use crate::counting::count_matching;
use crate::counting::lemma_count_matching_congruence;
use crate::counting::lemma_count_matching_prefix;
use crate::towdarray::TowDArray;
use vstd::prelude::*;

verus! {

/// One grid position: whether it hides a mine, whether it has been revealed,
/// and how many of its in-bounds 8-neighbors hide a mine.
#[derive(Clone, Copy, Debug, PartialEq, Eq, Structural)]
pub struct Cell {
    pub has_mine: bool,
    pub is_revealed: bool,
    pub neighbor_mine_count: u8,
}

impl Default for Cell {
    /// A fresh cell: no mine, hidden, zero neighboring mines.
    fn default() -> (r: Cell)
        ensures
            r == (Cell { has_mine: false, is_revealed: false, neighbor_mine_count: 0 }),
    {
        Cell { has_mine: false, is_revealed: false, neighbor_mine_count: 0 }
    }
}

/// The outcome of one attempted reveal. `GameOver` and `Win` are terminal.
#[derive(Clone, Copy, Debug, PartialEq, Eq, Structural)]
pub enum State {
    GameOver,
    Win,
    Continue,
}

/// The board: a grid of cells, the number of mines placed at construction,
/// and how many safe (mine-free) cells have been revealed so far.
pub struct MineField {
    grid: TowDArray<Cell>,
    mine_count: u8,
    revealed_count: usize,
}

/// Whether two coordinates are distinct and differ by at most one in each
/// component, i.e. one is among the other's 8 neighbors.
pub open spec fn adjacent(x1: int, y1: int, x2: int, y2: int) -> bool {
    &&& -1 <= x2 - x1 <= 1
    &&& -1 <= y2 - y1 <= 1
    &&& !(x2 == x1 && y2 == y1)
}

pub open spec fn spec_mine(c: Cell) -> bool {
    c.has_mine
}

pub open spec fn spec_unrevealed(c: Cell) -> bool {
    !c.is_revealed
}

pub open spec fn spec_revealed_safe(c: Cell) -> bool {
    c.is_revealed && !c.has_mine
}

pub open spec fn spec_safe(c: Cell) -> bool {
    !c.has_mine
}

/// The predicates above as named function values, so that every count in a
/// contract speaks of one and the same function.
pub open spec fn mine_pred() -> spec_fn(Cell) -> bool {
    |c: Cell| spec_mine(c)
}

pub open spec fn unrevealed_pred() -> spec_fn(Cell) -> bool {
    |c: Cell| spec_unrevealed(c)
}

pub open spec fn revealed_safe_pred() -> spec_fn(Cell) -> bool {
    |c: Cell| spec_revealed_safe(c)
}

pub open spec fn safe_pred() -> spec_fn(Cell) -> bool {
    |c: Cell| spec_safe(c)
}

/// A mine cell as placed at construction, and a fresh untouched cell.
pub open spec fn placed_mine_cell() -> Cell {
    Cell { has_mine: true, is_revealed: false, neighbor_mine_count: 0 }
}

pub open spec fn fresh_cell() -> Cell {
    Cell { has_mine: false, is_revealed: false, neighbor_mine_count: 0 }
}

impl MineField {
    pub closed spec fn spec_width(self) -> int {
        self.grid.w as int
    }

    pub closed spec fn spec_height(self) -> int {
        self.grid.h as int
    }

    pub closed spec fn cells(self) -> Seq<Cell> {
        self.grid@
    }

    pub closed spec fn spec_mine_count(self) -> int {
        self.mine_count as int
    }

    pub closed spec fn spec_revealed_count(self) -> int {
        self.revealed_count as int
    }

    pub open spec fn in_bounds(self, x: int, y: int) -> bool {
        0 <= x < self.spec_width() && 0 <= y < self.spec_height()
    }

    pub open spec fn cell_spec(self, x: int, y: int) -> Cell {
        self.cells()[y * self.spec_width() + x]
    }

    pub open spec fn mine_at(self, x: int, y: int) -> bool {
        self.cell_spec(x, y).has_mine
    }

    pub open spec fn revealed_at(self, x: int, y: int) -> bool {
        self.cell_spec(x, y).is_revealed
    }

    /// A revealed cell of this kind floods: it is safe and touches no mine.
    pub open spec fn propagates_at(self, x: int, y: int) -> bool {
        !self.cell_spec(x, y).has_mine && self.cell_spec(x, y).neighbor_mine_count == 0
    }

    /// A coordinate is accepted when it fits the input range of one byte and
    /// lies inside the grid.
    pub open spec fn spec_valid(self, x: int, y: int) -> bool {
        0 <= x <= 255 && 0 <= y <= 255 && x < self.spec_width() && y < self.spec_height()
    }

    /// The number of in-bounds 8-neighbors of `(x, y)` that hide a mine,
    /// written out as one term per neighbor offset.
    pub open spec fn neighbor_mines(self, x: int, y: int) -> int {
        self.mine_term(x - 1, y - 1) + self.mine_term(x, y - 1) + self.mine_term(x + 1, y - 1)
            + self.mine_term(x - 1, y) + self.mine_term(x + 1, y) + self.mine_term(x - 1, y + 1)
            + self.mine_term(x, y + 1) + self.mine_term(x + 1, y + 1)
    }

    pub open spec fn mine_term(self, x: int, y: int) -> int {
        if self.in_bounds(x, y) && self.mine_at(x, y) {
            1
        } else {
            0
        }
    }

    /// Every cell's stored neighbor count is the true count of adjacent mines.
    pub open spec fn counts_correct(self) -> bool {
        forall|x: int, y: int|
            self.in_bounds(x, y) ==> self.cell_spec(x, y).neighbor_mine_count
                == #[trigger] self.neighbor_mines(x, y)
    }

    /// The shape part of the board invariant: a non-degenerate grid of at
    /// most 255 cells per side, one stored cell per coordinate, a mine
    /// counter that matches the mines actually present, and a revealed
    /// counter that counts exactly the revealed safe cells.
    pub closed spec fn wf_shape(self) -> bool {
        &&& 1 <= self.spec_width() <= 255
        &&& 1 <= self.spec_height() <= 255
        &&& self.grid.wf()
        &&& self.spec_mine_count() == count_matching(self.cells(), mine_pred())
        &&& self.spec_revealed_count() == count_matching(self.cells(), revealed_safe_pred())
    }

    /// The board invariant: the shape above, plus correct neighbor counts.
    pub closed spec fn wf(self) -> bool {
        self.wf_shape() && self.counts_correct()
    }

    /// Every safe cell has been revealed: the winning configuration.
    pub open spec fn all_safe_revealed(self) -> bool {
        forall|x: int, y: int|
            self.in_bounds(x, y) && !(#[trigger] self.cell_spec(x, y)).has_mine
                ==> self.cell_spec(x, y).is_revealed
    }

    /// Every mine has been revealed (the final display after a loss or win).
    pub open spec fn all_mines_revealed(self) -> bool {
        forall|x: int, y: int|
            self.in_bounds(x, y) && (#[trigger] self.cell_spec(x, y)).has_mine ==> self.cell_spec(
                x,
                y,
            ).is_revealed
    }

    pub fn width(&self) -> (r: usize)
        ensures
            r == self.spec_width(),
    {
        self.grid.w
    }

    pub fn height(&self) -> (r: usize)
        ensures
            r == self.spec_height(),
    {
        self.grid.h
    }

    pub fn mine_count(&self) -> (r: u8)
        ensures
            r == self.spec_mine_count(),
    {
        self.mine_count
    }

    pub fn revealed_count(&self) -> (r: usize)
        ensures
            r == self.spec_revealed_count(),
    {
        self.revealed_count
    }

    /// Read-only view of one cell, for rendering.
    pub fn cell_at(&self, x: usize, y: usize) -> (r: Cell)
        requires
            self.wf(),
            x < self.spec_width(),
            y < self.spec_height(),
        ensures
            r == self.cell_spec(x as int, y as int),
    {
        *self.grid.get(x, y)
    }

    pub fn is_inupt_valid(&self, x: usize, y: usize) -> (r: bool)
        requires
            self.wf(),
        ensures
            r == self.spec_valid(x as int, y as int),
    {
        !(x > u8::MAX as usize || y > u8::MAX as usize || x >= self.grid.w || y >= self.grid.h)
    }

    /// Whether the neighbor of `(x, y)` at offset `(dx, dy)` lies on the grid.
    fn is_relative_position_valid(&self, x: usize, y: usize, dx: isize, dy: isize) -> (r: bool)
        requires
            self.wf_shape(),
            x <= 255,
            y <= 255,
            -1 <= dx <= 1,
            -1 <= dy <= 1,
        ensures
            r == self.in_bounds(x as int + dx as int, y as int + dy as int),
    {
        let xi = x as isize;
        let yi = y as isize;
        let w = self.grid.w as isize;
        let h = self.grid.h as isize;
        !(dx + xi < 0 || dy + yi < 0 || xi + dx >= w || yi + dy >= h)
    }

    /// Count the mines on the in-bounds 8-neighbors of `(x, y)`.
    fn count_adjacent_mines(&self, x: usize, y: usize) -> (r: u8)
        requires
            self.wf_shape(),
            x < self.spec_width(),
            y < self.spec_height(),
        ensures
            r as int == self.neighbor_mines(x as int, y as int),
    {
        let mut n: u8 = 0;
        if self.is_relative_position_valid(x, y, -1, -1) && self.grid.get(x - 1, y - 1).has_mine {
            n = n + 1;
        }
        if self.is_relative_position_valid(x, y, 0, -1) && self.grid.get(x, y - 1).has_mine {
            n = n + 1;
        }
        if self.is_relative_position_valid(x, y, 1, -1) && self.grid.get(x + 1, y - 1).has_mine {
            n = n + 1;
        }
        if self.is_relative_position_valid(x, y, -1, 0) && self.grid.get(x - 1, y).has_mine {
            n = n + 1;
        }
        if self.is_relative_position_valid(x, y, 1, 0) && self.grid.get(x + 1, y).has_mine {
            n = n + 1;
        }
        if self.is_relative_position_valid(x, y, -1, 1) && self.grid.get(x - 1, y + 1).has_mine {
            n = n + 1;
        }
        if self.is_relative_position_valid(x, y, 0, 1) && self.grid.get(x, y + 1).has_mine {
            n = n + 1;
        }
        if self.is_relative_position_valid(x, y, 1, 1) && self.grid.get(x + 1, y + 1).has_mine {
            n = n + 1;
        }
        n
    }

    /// Recompute every cell's stored neighbor count from the mine layout.
    fn calculate_neighbor_count(&mut self)
        requires
            old(self).wf_shape(),
        ensures
            final(self).wf_shape(),
            final(self).spec_width() == old(self).spec_width(),
            final(self).spec_height() == old(self).spec_height(),
            final(self).spec_mine_count() == old(self).spec_mine_count(),
            final(self).spec_revealed_count() == old(self).spec_revealed_count(),
            forall|i: int|
                0 <= i < old(self).cells().len() ==> #[trigger] final(self).cells()[i] == (Cell {
                    neighbor_mine_count: final(self).cells()[i].neighbor_mine_count,
                    ..old(self).cells()[i]
                }),
            final(self).counts_correct(),
    {
        let ghost s0 = *self;
        let n = self.grid.w * self.grid.h;
        let mut i: usize = 0;
        while i < n
            invariant
                s0.wf_shape(),
                self.grid.w == s0.grid.w,
                self.grid.h == s0.grid.h,
                self.mine_count == s0.mine_count,
                self.revealed_count == s0.revealed_count,
                self.grid.wf(),
                n == s0.cells().len(),
                0 <= i <= n,
                forall|j: int|
                    0 <= j < n ==> #[trigger] self.cells()[j] == (Cell {
                        neighbor_mine_count: self.cells()[j].neighbor_mine_count,
                        ..s0.cells()[j]
                    }),
                forall|j: int| i <= j < n ==> #[trigger] self.cells()[j] == s0.cells()[j],
                forall|x: int, y: int|
                    self.in_bounds(x, y) && y * self.spec_width() + x < i ==> (
                    #[trigger] self.cell_spec(x, y)).neighbor_mine_count == s0.neighbor_mines(x, y),
            decreases n - i,
        {
            proof {
                lemma_count_matching_congruence(s0.cells(), self.cells(), mine_pred());
                lemma_count_matching_congruence(s0.cells(), self.cells(), revealed_safe_pred());
            }
            let ghost pre = *self;
            let (x, y) = self.grid.position_to_point(i);
            let c = self.count_adjacent_mines(x, y);
            proof {
                lemma_neighbor_mines_preserved(s0, *self);
            }
            let cur = *self.grid.get(x, y);
            self.grid.set(x, y, Cell { neighbor_mine_count: c, ..cur });
            i = i + 1;
            proof {
                let w = self.spec_width();
                assert forall|x2: int, y2: int|
                    self.in_bounds(x2, y2) && y2 * w + x2 < i implies (#[trigger] self.cell_spec(
                    x2,
                    y2,
                )).neighbor_mine_count == s0.neighbor_mines(x2, y2) by {
                    let idx2 = y2 * w + x2;
                    if idx2 == y * w + x {
                        lemma_row_major_injective(w, x2, y2, x as int, y as int);
                        assert(self.cells()[idx2].neighbor_mine_count == c as int);
                    } else {
                        assert(self.cells()[idx2] == pre.cells()[idx2]);
                        assert(pre.cell_spec(x2, y2).neighbor_mine_count == s0.neighbor_mines(
                            x2,
                            y2,
                        ));
                    }
                }
            }
        }
        proof {
            lemma_count_matching_congruence(s0.cells(), self.cells(), mine_pred());
            lemma_count_matching_congruence(s0.cells(), self.cells(), revealed_safe_pred());
            lemma_neighbor_mines_preserved(s0, *self);
            assert forall|x: int, y: int| self.in_bounds(x, y) implies 0 <= y * self.spec_width()
                + x < n by {
                crate::towdarray::lemma_row_major_index_in_range(
                    self.spec_width(),
                    self.spec_height(),
                    x,
                    y,
                );
            }
        }
    }

    /// A board with `mine_count` mines on the first cells in row-major order,
    /// untouched otherwise; counts are not yet computed.
    fn initial_field(w: u8, h: u8, mine_count: u8) -> (r: MineField)
        requires
            1 <= w,
            1 <= h,
            mine_count as int <= w as int * h as int,
        ensures
            r.wf_shape(),
            r.spec_width() == w as int,
            r.spec_height() == h as int,
            r.spec_mine_count() == mine_count as int,
            r.spec_revealed_count() == 0,
            forall|i: int|
                0 <= i < r.cells().len() ==> #[trigger] r.cells()[i] == (if i < mine_count as int {
                    placed_mine_cell()
                } else {
                    fresh_cell()
                }),
    {
        proof {
            assert((w as int) * (h as int) <= 65025) by (nonlinear_arith)
                requires
                    w <= 255,
                    h <= 255,
            ;
        }
        let grid = TowDArray::<Cell>::new(w as usize, h as usize, Cell::default());
        let mut m = MineField { grid, mine_count, revealed_count: 0 };
        let mc = mine_count as usize;
        let mut i: usize = 0;
        while i < mc
            invariant
                m.grid.w == w as usize,
                m.grid.h == h as usize,
                m.grid.wf(),
                m.mine_count == mine_count,
                m.revealed_count == 0,
                0 <= i <= mc,
                mc <= m.cells().len(),
                forall|j: int|
                    0 <= j < m.cells().len() ==> #[trigger] m.cells()[j] == (if j < i {
                        placed_mine_cell()
                    } else {
                        fresh_cell()
                    }),
            decreases mc - i,
        {
            let (x, y) = m.grid.position_to_point(i);
            m.grid.set(x, y, Cell { has_mine: true, is_revealed: false, neighbor_mine_count: 0 });
            i = i + 1;
        }
        proof {
            lemma_count_matching_prefix(m.cells(), mine_pred(), mine_count as int);
            lemma_count_matching_prefix(m.cells(), revealed_safe_pred(), 0);
        }
        m
    }

    /// Build a fresh board: `mine_count` mines placed on the first cells in
    /// row-major order, then the whole grid shuffled uniformly at random so
    /// every layout of `mine_count` mines is equally likely, then every
    /// cell's neighbor count computed. Nothing is revealed yet.
    pub fn new(w: u8, h: u8, mine_count: u8) -> (r: MineField)
        requires
            1 <= w,
            1 <= h,
            mine_count as int <= w as int * h as int,
        ensures
            r.wf(),
            r.spec_width() == w as int,
            r.spec_height() == h as int,
            r.cells().len() == w as int * h as int,
            r.spec_mine_count() == mine_count as int,
            count_matching(r.cells(), mine_pred()) == mine_count as int,
            r.spec_revealed_count() == 0,
            forall|x: int, y: int| r.in_bounds(x, y) ==> !#[trigger] r.revealed_at(x, y),
    {
        let mut m = Self::initial_field(w, h, mine_count);
        let ghost s1 = m.cells();
        m.grid.shuffle();
        let ghost s2 = m.cells();
        proof {
            lemma_shuffled_layout(s1, s2, mine_count as int);
        }
        m.calculate_neighbor_count();
        proof {
            assert forall|x: int, y: int| m.in_bounds(x, y) implies !#[trigger] m.revealed_at(
                x,
                y,
            ) by {
                crate::towdarray::lemma_row_major_index_in_range(
                    m.spec_width(),
                    m.spec_height(),
                    x,
                    y,
                );
                let idx = y * m.spec_width() + x;
                assert(m.cells()[idx].is_revealed == s2[idx].is_revealed);
                assert(!s2[idx].is_revealed);
            }
        }
        m
    }

    /// Build a board exactly like `new` but without the random shuffle: the
    /// mines stay on the first `mine_count` cells in row-major order, which
    /// gives a reproducible layout.
    pub fn new_unshuffled(w: u8, h: u8, mine_count: u8) -> (r: MineField)
        requires
            1 <= w,
            1 <= h,
            mine_count as int <= w as int * h as int,
        ensures
            r.wf(),
            r.spec_width() == w as int,
            r.spec_height() == h as int,
            r.cells().len() == w as int * h as int,
            r.spec_mine_count() == mine_count as int,
            count_matching(r.cells(), mine_pred()) == mine_count as int,
            r.spec_revealed_count() == 0,
            forall|x: int, y: int| r.in_bounds(x, y) ==> !#[trigger] r.revealed_at(x, y),
            forall|x: int, y: int|
                r.in_bounds(x, y) ==> (#[trigger] r.mine_at(x, y) <==> y * (w as int) + x
                    < mine_count as int),
    {
        let mut m = Self::initial_field(w, h, mine_count);
        let ghost s0 = m.cells();
        m.calculate_neighbor_count();
        proof {
            assert forall|x: int, y: int| m.in_bounds(x, y) implies !#[trigger] m.revealed_at(
                x,
                y,
            ) by {
                crate::towdarray::lemma_row_major_index_in_range(
                    m.spec_width(),
                    m.spec_height(),
                    x,
                    y,
                );
                let idx = y * m.spec_width() + x;
                assert(m.cells()[idx].is_revealed == s0[idx].is_revealed);
                assert(s0[idx].is_revealed == false);
            }
            assert forall|x: int, y: int| m.in_bounds(x, y) implies (#[trigger] m.mine_at(x, y)
                <==> y * (w as int) + x < mine_count as int) by {
                crate::towdarray::lemma_row_major_index_in_range(
                    m.spec_width(),
                    m.spec_height(),
                    x,
                    y,
                );
                let idx = y * m.spec_width() + x;
                assert(m.cells()[idx].has_mine == s0[idx].has_mine);
                assert(s0[idx] == (if idx < mine_count as int {
                    placed_mine_cell()
                } else {
                    fresh_cell()
                }));
            }
        }
        m
    }
}

impl MineField {
    /// Reveal the cell at `(x, y)`. Nothing happens on an out-of-range
    /// coordinate or an already revealed cell; otherwise the cell is marked
    /// revealed (counting it when it is safe) and, when it is safe and
    /// touches no mine, the reveal cascades to all its in-bounds neighbors.
    #[verifier::rlimit(100)]
    pub fn discover(&mut self, x: usize, y: usize)
        requires
            old(self).wf(),
        ensures
            final(self).wf(),
            reveal_extends(*old(self), *final(self)),
            (!old(self).spec_valid(x as int, y as int) || old(self).revealed_at(
                x as int,
                y as int,
            )) ==> same_state(*old(self), *final(self)),
            old(self).spec_valid(x as int, y as int) ==> final(self).revealed_at(
                x as int,
                y as int,
            ),
            (old(self).spec_valid(x as int, y as int) && !old(self).revealed_at(
                x as int,
                y as int,
            )) ==> only_flood_revealed(*old(self), *final(self), x as int, y as int),
            flood_closed(*old(self), *final(self)),
        decreases count_matching(self.cells(), unrevealed_pred()), 1int,
    {
        let ghost pre = *self;
        if !self.is_inupt_valid(x, y) {
            return;
        }
        let c = *self.grid.get(x, y);
        if c.is_revealed {
            return;
        }
        let nc = Cell { is_revealed: true, ..c };
        self.grid.set(x, y, nc);
        proof {
            crate::towdarray::lemma_row_major_index_in_range(
                pre.spec_width(),
                pre.spec_height(),
                x as int,
                y as int,
            );
            let idx = (y as int) * pre.spec_width() + (x as int);
            crate::counting::lemma_count_matching_update(pre.cells(), mine_pred(), idx, nc);
            crate::counting::lemma_count_matching_update(
                pre.cells(),
                revealed_safe_pred(),
                idx,
                nc,
            );
            crate::counting::lemma_count_matching_update(pre.cells(), unrevealed_pred(), idx, nc);
            crate::counting::lemma_count_matching_bounds(self.cells(), revealed_safe_pred());
        }
        if !c.has_mine {
            self.revealed_count = self.revealed_count + 1;
        }
        let ghost mid = *self;
        proof {
            lemma_mark_target(pre, mid, x as int, y as int);
        }
        if c.neighbor_mine_count == 0 && !c.has_mine {
            if self.is_relative_position_valid(x, y, -1, -1) {
                self.discover_step(x, y, x - 1, y - 1, Ghost(pre), Ghost(mid));
            }
            if self.is_relative_position_valid(x, y, 0, -1) {
                self.discover_step(x, y, x, y - 1, Ghost(pre), Ghost(mid));
            }
            if self.is_relative_position_valid(x, y, 1, -1) {
                self.discover_step(x, y, x + 1, y - 1, Ghost(pre), Ghost(mid));
            }
            if self.is_relative_position_valid(x, y, -1, 0) {
                self.discover_step(x, y, x - 1, y, Ghost(pre), Ghost(mid));
            }
            if self.is_relative_position_valid(x, y, 1, 0) {
                self.discover_step(x, y, x + 1, y, Ghost(pre), Ghost(mid));
            }
            if self.is_relative_position_valid(x, y, -1, 1) {
                self.discover_step(x, y, x - 1, y + 1, Ghost(pre), Ghost(mid));
            }
            if self.is_relative_position_valid(x, y, 0, 1) {
                self.discover_step(x, y, x, y + 1, Ghost(pre), Ghost(mid));
            }
            if self.is_relative_position_valid(x, y, 1, 1) {
                self.discover_step(x, y, x + 1, y + 1, Ghost(pre), Ghost(mid));
            }
            proof {
                assert(reveal_extends(mid, *self));
                lemma_reveal_extends_trans(pre, mid, *self);
                assert forall|nx2: int, ny2: int|
                    pre.in_bounds(nx2, ny2) && #[trigger] adjacent(
                        x as int,
                        y as int,
                        nx2,
                        ny2,
                    ) implies self.revealed_at(nx2, ny2) by {
                    assert(-1 <= nx2 - x as int <= 1 && -1 <= ny2 - y as int <= 1);
                }
                lemma_assemble_flood_closed(pre, mid, *self, x as int, y as int);
            }
        } else {
            proof {
                lemma_single_reveal_closed(pre, mid, x as int, y as int);
            }
        }
    }

    /// One cascade step: reveal the neighbor `(nx, ny)` of the flooding
    /// target `(tx, ty)`, carrying the proof state of the whole cascade.
    /// `pre` is the board before the target was revealed and `mid` the board
    /// just after.
    fn discover_step(
        &mut self,
        tx: usize,
        ty: usize,
        nx: usize,
        ny: usize,
        Ghost(pre): Ghost<MineField>,
        Ghost(mid): Ghost<MineField>,
    )
        requires
            old(self).wf(),
            pre.wf(),
            reveal_extends(pre, mid),
            reveal_extends(mid, *old(self)),
            pre.in_bounds(tx as int, ty as int),
            !pre.revealed_at(tx as int, ty as int),
            pre.propagates_at(tx as int, ty as int),
            pre.in_bounds(nx as int, ny as int),
            adjacent(tx as int, ty as int, nx as int, ny as int),
            only_flood_revealed(pre, *old(self), tx as int, ty as int),
            flood_closed(mid, *old(self)),
            count_matching(mid.cells(), unrevealed_pred()) < count_matching(
                pre.cells(),
                unrevealed_pred(),
            ),
        ensures
            final(self).wf(),
            reveal_extends(*old(self), *final(self)),
            reveal_extends(mid, *final(self)),
            final(self).revealed_at(nx as int, ny as int),
            forall|ax: int, ay: int|
                pre.in_bounds(ax, ay) && #[trigger] old(self).revealed_at(ax, ay) ==> final(self).revealed_at(ax, ay),
            only_flood_revealed(pre, *final(self), tx as int, ty as int),
            flood_closed(mid, *final(self)),
        decreases count_matching(pre.cells(), unrevealed_pred()), 0int,
    {
        let ghost before = *self;
        proof {
            lemma_reveal_extends_trans(pre, mid, before);
            crate::counting::lemma_count_matching_pointwise_le(
                mid.cells(),
                before.cells(),
                unrevealed_pred(),
            );
            crate::counting::lemma_count_matching_bounds(before.cells(), unrevealed_pred());
            assert(count_matching(before.cells(), unrevealed_pred()) < count_matching(
                pre.cells(),
                unrevealed_pred(),
            ));
            assert(before.spec_valid(nx as int, ny as int));
        }
        self.discover(nx, ny);
        proof {
            lemma_reveal_extends_trans(mid, before, *self);
            assert(self.revealed_at(nx as int, ny as int));
            assert forall|ax: int, ay: int|
                pre.in_bounds(ax, ay) && #[trigger] before.revealed_at(ax, ay) implies
                self.revealed_at(ax, ay) by {
                lemma_extends_cell_facts(before, *self, ax, ay);
            }
            assert forall|cx: int, cy: int|
                pre.in_bounds(cx, cy) && #[trigger] self.revealed_at(cx, cy) implies
                pre.revealed_at(cx, cy) || flood_reach(pre, tx as int, ty as int, cx, cy) by {
                if before.revealed_at(cx, cy) {
                    assert(pre.revealed_at(cx, cy) || flood_reach(
                        pre,
                        tx as int,
                        ty as int,
                        cx,
                        cy,
                    ));
                } else {
                    if !before.revealed_at(nx as int, ny as int) {
                        assert(before.revealed_at(cx, cy) || flood_reach(
                            before,
                            nx as int,
                            ny as int,
                            cx,
                            cy,
                        ));
                        lemma_flood_reach_extend(
                            pre,
                            before,
                            tx as int,
                            ty as int,
                            nx as int,
                            ny as int,
                            cx,
                            cy,
                        );
                    } else {
                        assert(same_state(before, *self));
                        assert(false);
                    }
                }
            }
            assert(mid.cells().len() == mid.spec_width() * mid.spec_height());
            lemma_flood_closed_trans(mid, before, *self);
        }
    }

    /// Mark every mine on the board revealed, so that the final display can
    /// show them. Safe cells and the revealed counter are untouched.
    fn discover_all_bomb(&mut self)
        requires
            old(self).wf(),
        ensures
            final(self).wf(),
            reveal_extends(*old(self), *final(self)),
            final(self).spec_revealed_count() == old(self).spec_revealed_count(),
            forall|i: int|
                0 <= i < old(self).cells().len() ==> #[trigger] final(self).cells()[i] == (Cell {
                    is_revealed: old(self).cells()[i].is_revealed || old(self).cells()[i].has_mine,
                    ..old(self).cells()[i]
                }),
            final(self).all_mines_revealed(),
    {
        let ghost s0 = *self;
        let n = self.grid.w * self.grid.h;
        let mut i: usize = 0;
        while i < n
            invariant
                s0.wf(),
                self.grid.w == s0.grid.w,
                self.grid.h == s0.grid.h,
                self.mine_count == s0.mine_count,
                self.revealed_count == s0.revealed_count,
                self.grid.wf(),
                n == s0.cells().len(),
                0 <= i <= n,
                count_matching(self.cells(), revealed_safe_pred()) == count_matching(
                    s0.cells(),
                    revealed_safe_pred(),
                ),
                forall|j: int|
                    0 <= j < i ==> #[trigger] self.cells()[j] == (Cell {
                        is_revealed: s0.cells()[j].is_revealed || s0.cells()[j].has_mine,
                        ..s0.cells()[j]
                    }),
                forall|j: int| i <= j < n ==> #[trigger] self.cells()[j] == s0.cells()[j],
            decreases n - i,
        {
            let (x, y) = self.grid.position_to_point(i);
            let cur = *self.grid.get(x, y);
            if cur.has_mine && !cur.is_revealed {
                let ghost prev = self.cells();
                self.grid.set(x, y, Cell { is_revealed: true, ..cur });
                proof {
                    crate::counting::lemma_count_matching_update(
                        prev,
                        revealed_safe_pred(),
                        i as int,
                        Cell { is_revealed: true, ..cur },
                    );
                }
            }
            i = i + 1;
        }
        proof {
            lemma_neighbor_mines_preserved(s0, *self);
            lemma_count_matching_congruence(s0.cells(), self.cells(), mine_pred());
            assert forall|x2: int, y2: int| self.in_bounds(x2, y2) implies (
            #[trigger] self.neighbor_mines(x2, y2)) == self.cell_spec(
                x2,
                y2,
            ).neighbor_mine_count by {
                crate::towdarray::lemma_row_major_index_in_range(
                    s0.spec_width(),
                    s0.spec_height(),
                    x2,
                    y2,
                );
                assert(s0.cell_spec(x2, y2).neighbor_mine_count == s0.neighbor_mines(x2, y2));
            }
            assert(self.wf());
            assert forall|x2: int, y2: int|
                self.in_bounds(x2, y2) && (#[trigger] self.cell_spec(x2, y2)).has_mine implies
                self.cell_spec(x2, y2).is_revealed by {
                crate::towdarray::lemma_row_major_index_in_range(
                    s0.spec_width(),
                    s0.spec_height(),
                    x2,
                    y2,
                );
            }
        }
    }

    /// Try to reveal `(x, y)` and report how the game stands: `Continue` for
    /// an out-of-range coordinate or an uneventful reveal, `GameOver` when
    /// the target hides a mine, `Win` once every safe cell is revealed. On a
    /// loss or a win every mine is revealed for the final display.
    pub fn attempt(&mut self, x: usize, y: usize) -> (r: State)
        requires
            old(self).wf(),
        ensures
            final(self).wf(),
            reveal_extends(*old(self), *final(self)),
            !old(self).spec_valid(x as int, y as int) ==> same_state(*old(self), *final(self))
                && r == State::Continue,
            old(self).spec_valid(x as int, y as int) ==> (r == State::GameOver <==> old(
                self,
            ).mine_at(x as int, y as int)),
            old(self).spec_valid(x as int, y as int) ==> (r == State::Win <==> !old(self).mine_at(
                x as int,
                y as int,
            ) && final(self).all_safe_revealed()),
            (r == State::GameOver || r == State::Win) ==> final(self).all_mines_revealed(),
            old(self).spec_valid(x as int, y as int) ==> forall|cx: int, cy: int|
                old(self).in_bounds(cx, cy) ==> (#[trigger] final(self).revealed_at(cx, cy) <==> old(
                    self,
                ).revealed_at(cx, cy) || (!old(self).revealed_at(x as int, y as int) && flood_reach(
                    *old(self),
                    x as int,
                    y as int,
                    cx,
                    cy,
                )) || ((r == State::GameOver || r == State::Win) && old(self).mine_at(cx, cy))),
    {
        let ghost pre = *self;
        if self.is_inupt_valid(x, y) {
            self.discover(x, y);
            let ghost d = *self;
            proof {
                if !pre.revealed_at(x as int, y as int) {
                    lemma_flood_complete(pre, d, x as int, y as int);
                }
                assert forall|cx: int, cy: int| pre.in_bounds(cx, cy) implies (
                #[trigger] d.revealed_at(cx, cy) <==> pre.revealed_at(cx, cy) || (!pre.revealed_at(
                    x as int,
                    y as int,
                ) && flood_reach(pre, x as int, y as int, cx, cy))) by {
                    crate::towdarray::lemma_row_major_index_in_range(
                        pre.spec_width(),
                        pre.spec_height(),
                        cx,
                        cy,
                    );
                    if pre.revealed_at(cx, cy) {
                        lemma_extends_cell_facts(pre, d, cx, cy);
                    }
                }
                lemma_extends_cell_facts(pre, d, x as int, y as int);
            }
            let cxy = self.cell_at(x, y);
            if cxy.has_mine {
                self.discover_all_bomb();
                proof {
                    lemma_reveal_extends_trans(pre, d, *self);
                    lemma_attempt_reveal_set(pre, d, *self, x as int, y as int);
                }
                return State::GameOver;
            }
            let total = self.grid.w * self.grid.h;
            proof {
                crate::counting::lemma_count_matching_bounds(self.cells(), revealed_safe_pred());
                assert(self.spec_width() * self.spec_height() <= 65025) by (nonlinear_arith)
                    requires
                        1 <= self.spec_width() <= 255,
                        1 <= self.spec_height() <= 255,
                ;
            }
            if self.mine_count as usize + self.revealed_count == total {
                proof {
                    lemma_win_count(*self);
                    assert(d.all_safe_revealed());
                }
                self.discover_all_bomb();
                proof {
                    lemma_reveal_extends_trans(pre, d, *self);
                    lemma_attempt_reveal_set(pre, d, *self, x as int, y as int);
                    assert forall|x2: int, y2: int|
                        self.in_bounds(x2, y2) && !(#[trigger] self.cell_spec(x2, y2)).has_mine
                            implies self.cell_spec(x2, y2).is_revealed by {
                        crate::towdarray::lemma_row_major_index_in_range(
                            pre.spec_width(),
                            pre.spec_height(),
                            x2,
                            y2,
                        );
                        assert(d.cell_spec(x2, y2).is_revealed);
                    }
                }
                return State::Win;
            }
            proof {
                lemma_win_count(*self);
            }
            return State::Continue;
        }
        State::Continue
    }
}

/// After the mines are all revealed on top of a state reached by a reveal
/// cascade, the revealed set is exactly: what was already revealed, what the
/// cascade reached, and the mines.
proof fn lemma_attempt_reveal_set(pre: MineField, d: MineField, post: MineField, tx: int, ty: int)
    requires
        pre.wf(),
        reveal_extends(pre, d),
        reveal_extends(d, post),
        forall|i: int|
            0 <= i < d.cells().len() ==> #[trigger] post.cells()[i] == (Cell {
                is_revealed: d.cells()[i].is_revealed || d.cells()[i].has_mine,
                ..d.cells()[i]
            }),
        forall|cx: int, cy: int|
            pre.in_bounds(cx, cy) ==> (#[trigger] d.revealed_at(cx, cy) <==> pre.revealed_at(
                cx,
                cy,
            ) || (!pre.revealed_at(tx, ty) && flood_reach(pre, tx, ty, cx, cy))),
    ensures
        forall|cx: int, cy: int|
            pre.in_bounds(cx, cy) ==> (#[trigger] post.revealed_at(cx, cy) <==> pre.revealed_at(
                cx,
                cy,
            ) || (!pre.revealed_at(tx, ty) && flood_reach(pre, tx, ty, cx, cy)) || pre.mine_at(
                cx,
                cy,
            )),
{
    assert forall|cx: int, cy: int| pre.in_bounds(cx, cy) implies (#[trigger] post.revealed_at(
        cx,
        cy,
    ) <==> pre.revealed_at(cx, cy) || (!pre.revealed_at(tx, ty) && flood_reach(
        pre,
        tx,
        ty,
        cx,
        cy,
    )) || pre.mine_at(cx, cy)) by {
        crate::towdarray::lemma_row_major_index_in_range(
            pre.spec_width(),
            pre.spec_height(),
            cx,
            cy,
        );
        let idx = cy * pre.spec_width() + cx;
        assert(post.cells()[idx] == (Cell {
            is_revealed: d.cells()[idx].is_revealed || d.cells()[idx].has_mine,
            ..d.cells()[idx]
        }));
        assert(d.cells()[idx].has_mine == pre.cells()[idx].has_mine);
        assert(d.revealed_at(cx, cy) <==> pre.revealed_at(cx, cy) || (!pre.revealed_at(tx, ty)
            && flood_reach(pre, tx, ty, cx, cy)));
    }
}

/// After a permutation of a freshly mined grid the number of mines is
/// unchanged and every cell is still hidden with a zero count.
proof fn lemma_shuffled_layout(s1: Seq<Cell>, s2: Seq<Cell>, k: int)
    requires
        0 <= k <= s1.len(),
        s1.len() == s2.len(),
        s1.to_multiset() == s2.to_multiset(),
        forall|i: int|
            0 <= i < s1.len() ==> #[trigger] s1[i] == (if i < k {
                placed_mine_cell()
            } else {
                fresh_cell()
            }),
    ensures
        count_matching(s2, mine_pred()) == k,
        count_matching(s2, revealed_safe_pred()) == 0,
        forall|i: int|
            0 <= i < s2.len() ==> !(#[trigger] s2[i]).is_revealed && s2[i].neighbor_mine_count
                == 0,
{
    broadcast use vstd::seq_lib::group_to_multiset_ensures;

    assert forall|i: int| 0 <= i < s2.len() implies #[trigger] s2[i] == placed_mine_cell() || s2[i]
        == fresh_cell() by {
        assert(s2.contains(s2[i]));
        assert(s2.to_multiset().count(s2[i]) > 0);
        assert(s1.to_multiset().count(s2[i]) > 0);
        assert(s1.contains(s2[i]));
        let j = choose|j: int| 0 <= j < s1.len() && s1[j] == s2[i];
        assert(s1[j] == s2[i]);
    }
    lemma_count_matching_prefix(s1, mine_pred(), k);
    crate::counting::lemma_count_matching_is_multiplicity(s1, mine_pred(), placed_mine_cell());
    crate::counting::lemma_count_matching_is_multiplicity(s2, mine_pred(), placed_mine_cell());
    lemma_count_matching_prefix(s2, revealed_safe_pred(), 0);
}

/// `post` is `pre` with possibly more cells revealed: the dimensions, the
/// mine counter and every cell's mine and count fields are unchanged, and no
/// revealed cell goes back to hidden.
pub open spec fn reveal_extends(pre: MineField, post: MineField) -> bool {
    &&& post.spec_width() == pre.spec_width()
    &&& post.spec_height() == pre.spec_height()
    &&& post.spec_mine_count() == pre.spec_mine_count()
    &&& post.cells().len() == pre.cells().len()
    &&& forall|i: int|
        0 <= i < pre.cells().len() ==> (#[trigger] post.cells()[i]).has_mine
            == pre.cells()[i].has_mine && post.cells()[i].neighbor_mine_count
            == pre.cells()[i].neighbor_mine_count && (pre.cells()[i].is_revealed
            ==> post.cells()[i].is_revealed)
}

/// The two boards are observably identical.
pub open spec fn same_state(pre: MineField, post: MineField) -> bool {
    &&& post.spec_width() == pre.spec_width()
    &&& post.spec_height() == pre.spec_height()
    &&& post.spec_mine_count() == pre.spec_mine_count()
    &&& post.spec_revealed_count() == pre.spec_revealed_count()
    &&& post.cells() == pre.cells()
}

/// A flood path in `pre` from `t` to `c`: every cell on it lies on the grid,
/// consecutive cells are neighbors, every cell before the last floods (safe
/// with zero neighbor count), and no cell after the first was already
/// revealed in `pre`.
pub open spec fn is_flood_path(
    pre: MineField,
    p: Seq<(int, int)>,
    t: (int, int),
    c: (int, int),
) -> bool {
    &&& p.len() >= 1
    &&& p[0] == t
    &&& p[p.len() - 1] == c
    &&& forall|i: int| 0 <= i < p.len() ==> pre.in_bounds((#[trigger] p[i]).0, p[i].1)
    &&& forall|i: int| 0 <= i < p.len() - 1 ==> pre.propagates_at((#[trigger] p[i]).0, p[i].1)
    &&& forall|i: int| 1 <= i < p.len() ==> !pre.revealed_at((#[trigger] p[i]).0, p[i].1)
    &&& forall|i: int|
        1 <= i < p.len() ==> adjacent(p[i - 1].0, p[i - 1].1, (#[trigger] p[i]).0, p[i].1)
}

/// The reveal cascade started at `(tx, ty)` in `pre` reaches `(cx, cy)`.
pub open spec fn flood_reach(pre: MineField, tx: int, ty: int, cx: int, cy: int) -> bool {
    exists|p: Seq<(int, int)>| is_flood_path(pre, p, (tx, ty), (cx, cy))
}

/// Going from `pre` to `post`, cells were revealed only along flood paths
/// from the target `(tx, ty)`.
pub open spec fn only_flood_revealed(pre: MineField, post: MineField, tx: int, ty: int) -> bool {
    forall|cx: int, cy: int|
        pre.in_bounds(cx, cy) && #[trigger] post.revealed_at(cx, cy) ==> pre.revealed_at(cx, cy)
            || flood_reach(pre, tx, ty, cx, cy)
}

/// Every cell newly revealed since `pre` that floods has all its in-bounds
/// neighbors revealed in `post`.
pub open spec fn flood_closed(pre: MineField, post: MineField) -> bool {
    forall|cx: int, cy: int, nx: int, ny: int|
        pre.in_bounds(cx, cy) && #[trigger] post.revealed_at(cx, cy) && !pre.revealed_at(cx, cy)
            && pre.propagates_at(cx, cy) && pre.in_bounds(nx, ny) && #[trigger] adjacent(
            cx,
            cy,
            nx,
            ny,
        ) ==> post.revealed_at(nx, ny)
}

/// Between two states related by `reveal_extends`, an in-bounds coordinate
/// keeps its mine flag and neighbor count, and stays revealed.
proof fn lemma_extends_cell_facts(a: MineField, b: MineField, x: int, y: int)
    requires
        reveal_extends(a, b),
        a.cells().len() == a.spec_width() * a.spec_height(),
        a.in_bounds(x, y),
    ensures
        b.in_bounds(x, y),
        b.cell_spec(x, y).has_mine == a.cell_spec(x, y).has_mine,
        b.cell_spec(x, y).neighbor_mine_count == a.cell_spec(x, y).neighbor_mine_count,
        a.revealed_at(x, y) ==> b.revealed_at(x, y),
        b.propagates_at(x, y) == a.propagates_at(x, y),
{
    crate::towdarray::lemma_row_major_index_in_range(a.spec_width(), a.spec_height(), x, y);
    let idx = y * a.spec_width() + x;
    assert(0 <= idx < a.cells().len());
    assert((#[trigger] b.cells()[idx]).has_mine == a.cells()[idx].has_mine
        && b.cells()[idx].neighbor_mine_count == a.cells()[idx].neighbor_mine_count && (
    a.cells()[idx].is_revealed ==> b.cells()[idx].is_revealed));
}

proof fn lemma_reveal_extends_trans(a: MineField, b: MineField, c: MineField)
    requires
        reveal_extends(a, b),
        reveal_extends(b, c),
    ensures
        reveal_extends(a, c),
{
    assert forall|i: int| 0 <= i < a.cells().len() implies (#[trigger] c.cells()[i]).has_mine
        == a.cells()[i].has_mine && c.cells()[i].neighbor_mine_count
        == a.cells()[i].neighbor_mine_count && (a.cells()[i].is_revealed
        ==> c.cells()[i].is_revealed) by {
        assert((#[trigger] b.cells()[i]).has_mine == a.cells()[i].has_mine
            && b.cells()[i].neighbor_mine_count == a.cells()[i].neighbor_mine_count && (
        a.cells()[i].is_revealed ==> b.cells()[i].is_revealed));
    }
}

proof fn lemma_flood_closed_trans(a: MineField, b: MineField, c: MineField)
    requires
        a.cells().len() == a.spec_width() * a.spec_height(),
        reveal_extends(a, b),
        reveal_extends(b, c),
        flood_closed(a, b),
        flood_closed(b, c),
    ensures
        flood_closed(a, c),
{
    assert forall|cx: int, cy: int, nx: int, ny: int|
        a.in_bounds(cx, cy) && #[trigger] c.revealed_at(cx, cy) && !a.revealed_at(cx, cy)
            && a.propagates_at(cx, cy) && a.in_bounds(nx, ny) && #[trigger] adjacent(
            cx,
            cy,
            nx,
            ny,
        ) implies c.revealed_at(nx, ny) by {
        if b.revealed_at(cx, cy) {
            assert(b.revealed_at(nx, ny));
            assert(b.cells().len() == b.spec_width() * b.spec_height());
            lemma_extends_cell_facts(b, c, nx, ny);
        } else {
            lemma_extends_cell_facts(a, b, cx, cy);
            lemma_extends_cell_facts(a, b, nx, ny);
            assert(b.propagates_at(cx, cy));
            assert(!b.revealed_at(cx, cy));
            assert(c.revealed_at(nx, ny));
        }
    }
}

/// Prepending the flooding target to a path found after some further reveals
/// yields a flood path in the earlier state.
proof fn lemma_flood_reach_extend(
    pre: MineField,
    mid: MineField,
    tx: int,
    ty: int,
    nx: int,
    ny: int,
    cx: int,
    cy: int,
)
    requires
        pre.cells().len() == pre.spec_width() * pre.spec_height(),
        reveal_extends(pre, mid),
        pre.in_bounds(tx, ty),
        pre.propagates_at(tx, ty),
        pre.in_bounds(nx, ny),
        adjacent(tx, ty, nx, ny),
        !mid.revealed_at(nx, ny),
        flood_reach(mid, nx, ny, cx, cy),
    ensures
        flood_reach(pre, tx, ty, cx, cy),
{
    let p = choose|p: Seq<(int, int)>| is_flood_path(mid, p, (nx, ny), (cx, cy));
    let q = seq![(tx, ty)] + p;
    assert(q.len() == p.len() + 1);
    assert(q[0] == (tx, ty));
    assert(forall|i: int| 1 <= i < q.len() ==> #[trigger] q[i] == p[i - 1]);
    assert(q[q.len() - 1] == (cx, cy));
    assert forall|i: int| 0 <= i < q.len() implies pre.in_bounds((#[trigger] q[i]).0, q[i].1) by {
        if i >= 1 {
            assert(mid.in_bounds((p[i - 1]).0, p[i - 1].1));
        }
    }
    assert forall|i: int| 0 <= i < q.len() - 1 implies pre.propagates_at(
        (#[trigger] q[i]).0,
        q[i].1,
    ) by {
        if i >= 1 {
            assert(mid.propagates_at((p[i - 1]).0, p[i - 1].1));
            lemma_extends_cell_facts(pre, mid, p[i - 1].0, p[i - 1].1);
        }
    }
    assert forall|i: int| 1 <= i < q.len() implies !pre.revealed_at(
        (#[trigger] q[i]).0,
        q[i].1,
    ) by {
        if i == 1 {
            assert(q[1] == p[0]);
            assert(p[0] == (nx, ny));
            lemma_extends_cell_facts(pre, mid, nx, ny);
        } else {
            assert(!mid.revealed_at((p[i - 1]).0, p[i - 1].1));
            lemma_extends_cell_facts(pre, mid, p[i - 1].0, p[i - 1].1);
        }
    }
    assert forall|i: int| 1 <= i < q.len() implies adjacent(
        q[i - 1].0,
        q[i - 1].1,
        (#[trigger] q[i]).0,
        q[i].1,
    ) by {
        if i >= 2 {
            assert(adjacent((p[i - 2]).0, p[i - 2].1, (#[trigger] p[i - 1]).0, p[i - 1].1));
        }
    }
    assert(is_flood_path(pre, q, (tx, ty), (cx, cy)));
}

/// Marking one hidden cell revealed extends the board, keeps it well formed,
/// lowers the number of hidden cells by one, and reveals nothing that the
/// cascade from that cell could not reach.
proof fn lemma_mark_target(pre: MineField, mid: MineField, x: int, y: int)
    requires
        pre.wf(),
        pre.in_bounds(x, y),
        !pre.revealed_at(x, y),
        mid.spec_width() == pre.spec_width(),
        mid.spec_height() == pre.spec_height(),
        mid.spec_mine_count() == pre.spec_mine_count(),
        mid.cells() == pre.cells().update(
            y * pre.spec_width() + x,
            Cell { is_revealed: true, ..pre.cell_spec(x, y) },
        ),
        mid.spec_revealed_count() == pre.spec_revealed_count() + (if pre.cell_spec(
            x,
            y,
        ).has_mine {
            0int
        } else {
            1int
        }),
    ensures
        reveal_extends(pre, mid),
        mid.wf(),
        count_matching(mid.cells(), unrevealed_pred()) == count_matching(
            pre.cells(),
            unrevealed_pred(),
        ) - 1,
        mid.revealed_at(x, y),
        flood_reach(pre, x, y, x, y),
        only_flood_revealed(pre, mid, x, y),
{
    let idx = y * pre.spec_width() + x;
    let nc = Cell { is_revealed: true, ..pre.cell_spec(x, y) };
    crate::towdarray::lemma_row_major_index_in_range(pre.spec_width(), pre.spec_height(), x, y);
    crate::counting::lemma_count_matching_update(pre.cells(), mine_pred(), idx, nc);
    crate::counting::lemma_count_matching_update(pre.cells(), revealed_safe_pred(), idx, nc);
    crate::counting::lemma_count_matching_update(pre.cells(), unrevealed_pred(), idx, nc);
    assert(reveal_extends(pre, mid));
    lemma_neighbor_mines_preserved(pre, mid);
    assert forall|x2: int, y2: int| mid.in_bounds(x2, y2) implies (#[trigger] mid.cell_spec(
        x2,
        y2,
    )).neighbor_mine_count == mid.neighbor_mines(x2, y2) by {
        crate::towdarray::lemma_row_major_index_in_range(
            pre.spec_width(),
            pre.spec_height(),
            x2,
            y2,
        );
        assert(pre.cell_spec(x2, y2).neighbor_mine_count == pre.neighbor_mines(x2, y2));
    }
    assert(mid.wf());
    let q = seq![(x, y)];
    assert(q[0] == (x, y));
    assert(is_flood_path(pre, q, (x, y), (x, y)));
    assert(flood_reach(pre, x, y, x, y));
    assert forall|cx: int, cy: int|
        pre.in_bounds(cx, cy) && #[trigger] mid.revealed_at(cx, cy) implies pre.revealed_at(cx, cy)
            || flood_reach(pre, x, y, cx, cy) by {
        if !pre.revealed_at(cx, cy) {
            crate::towdarray::lemma_row_major_index_in_range(
                pre.spec_width(),
                pre.spec_height(),
                cx,
                cy,
            );
            assert(cy * pre.spec_width() + cx == idx);
            lemma_row_major_injective(pre.spec_width(), cx, cy, x, y);
        }
    }
}

/// After a cascade whose target's in-bounds neighbors are all revealed, the
/// closure property holds relative to the state before the target was
/// marked, not only relative to the state just after.
#[verifier::rlimit(100)]
proof fn lemma_assemble_flood_closed(
    pre: MineField,
    mid: MineField,
    post: MineField,
    x: int,
    y: int,
)
    requires
        pre.wf(),
        pre.in_bounds(x, y),
        !pre.revealed_at(x, y),
        pre.propagates_at(x, y),
        reveal_extends(pre, mid),
        reveal_extends(mid, post),
        mid.cells() == pre.cells().update(
            y * pre.spec_width() + x,
            Cell { is_revealed: true, ..pre.cell_spec(x, y) },
        ),
        flood_closed(mid, post),
        forall|nx2: int, ny2: int|
            pre.in_bounds(nx2, ny2) && #[trigger] adjacent(x, y, nx2, ny2) ==> post.revealed_at(
                nx2,
                ny2,
            ),
    ensures
        flood_closed(pre, post),
{
    crate::towdarray::lemma_row_major_index_in_range(pre.spec_width(), pre.spec_height(), x, y);
    assert forall|cx: int, cy: int, nx2: int, ny2: int|
        pre.in_bounds(cx, cy) && #[trigger] post.revealed_at(cx, cy) && !pre.revealed_at(cx, cy)
            && pre.propagates_at(cx, cy) && pre.in_bounds(nx2, ny2) && #[trigger] adjacent(
            cx,
            cy,
            nx2,
            ny2,
        ) implies post.revealed_at(nx2, ny2) by {
        if cx == x && cy == y {
            assert(post.revealed_at(nx2, ny2));
        } else {
            crate::towdarray::lemma_row_major_index_in_range(
                pre.spec_width(),
                pre.spec_height(),
                cx,
                cy,
            );
            let idx2 = cy * pre.spec_width() + cx;
            let nc = Cell { is_revealed: true, ..pre.cell_spec(x, y) };
            if idx2 == y * pre.spec_width() + x {
                lemma_row_major_injective(pre.spec_width(), cx, cy, x, y);
            }
            assert(idx2 != y * pre.spec_width() + x);
            assert(pre.cells().update(y * pre.spec_width() + x, nc)[idx2] == pre.cells()[idx2]);
            assert(!mid.revealed_at(cx, cy));
            lemma_extends_cell_facts(pre, mid, cx, cy);
            lemma_extends_cell_facts(pre, mid, nx2, ny2);
            assert(mid.propagates_at(cx, cy));
            assert(post.revealed_at(nx2, ny2));
        }
    }
}

/// Revealing one cell that does not flood adds no reveal that breaks the
/// closure property.
#[verifier::rlimit(100)]
proof fn lemma_single_reveal_closed(pre: MineField, mid: MineField, x: int, y: int)
    requires
        pre.wf(),
        pre.in_bounds(x, y),
        !pre.propagates_at(x, y),
        mid.spec_width() == pre.spec_width(),
        mid.spec_height() == pre.spec_height(),
        mid.cells() == pre.cells().update(
            y * pre.spec_width() + x,
            Cell { is_revealed: true, ..pre.cell_spec(x, y) },
        ),
    ensures
        flood_closed(pre, mid),
{
    crate::towdarray::lemma_row_major_index_in_range(pre.spec_width(), pre.spec_height(), x, y);
    assert forall|cx: int, cy: int, nx2: int, ny2: int|
        pre.in_bounds(cx, cy) && #[trigger] mid.revealed_at(cx, cy) && !pre.revealed_at(cx, cy)
            && pre.propagates_at(cx, cy) && pre.in_bounds(nx2, ny2) && #[trigger] adjacent(
            cx,
            cy,
            nx2,
            ny2,
        ) implies mid.revealed_at(nx2, ny2) by {
        crate::towdarray::lemma_row_major_index_in_range(
            pre.spec_width(),
            pre.spec_height(),
            cx,
            cy,
        );
        let idx2 = cy * pre.spec_width() + cx;
        let nc = Cell { is_revealed: true, ..pre.cell_spec(x, y) };
        if idx2 != y * pre.spec_width() + x {
            assert(pre.cells().update(y * pre.spec_width() + x, nc)[idx2] == pre.cells()[idx2]);
            assert(false);
        }
        lemma_row_major_injective(pre.spec_width(), cx, cy, x, y);
        assert(cx == x && cy == y);
        assert(!pre.propagates_at(x, y));
    }
}

/// Distinct in-range coordinates have distinct row-major indices.
pub proof fn lemma_row_major_injective(w: int, x1: int, y1: int, x2: int, y2: int)
    requires
        0 <= x1 < w,
        0 <= x2 < w,
        y1 * w + x1 == y2 * w + x2,
    ensures
        x1 == x2 && y1 == y2,
{
    assert(x1 == x2 && y1 == y2) by (nonlinear_arith)
        requires
            0 <= x1 < w,
            0 <= x2 < w,
            y1 * w + x1 == y2 * w + x2,
    ;
}

/// The true neighbor-mine count depends only on the mine layout, so any
/// change that leaves every cell's `has_mine` flag alone preserves it.
proof fn lemma_mine_term_eq(a: MineField, b: MineField, x: int, y: int)
    requires
        a.spec_width() == b.spec_width(),
        a.spec_height() == b.spec_height(),
        a.cells().len() == b.cells().len(),
        a.cells().len() == a.spec_width() * a.spec_height(),
        forall|i: int|
            0 <= i < a.cells().len() ==> (#[trigger] b.cells()[i]).has_mine
                == a.cells()[i].has_mine,
    ensures
        a.mine_term(x, y) == b.mine_term(x, y),
{
    if a.in_bounds(x, y) {
        crate::towdarray::lemma_row_major_index_in_range(
            a.spec_width(),
            a.spec_height(),
            x,
            y,
        );
        let idx = y * a.spec_width() + x;
        assert(0 <= idx < a.cells().len());
        assert(b.cells()[idx].has_mine == a.cells()[idx].has_mine);
    }
}

proof fn lemma_neighbor_mines_preserved(a: MineField, b: MineField)
    requires
        a.spec_width() == b.spec_width(),
        a.spec_height() == b.spec_height(),
        a.cells().len() == b.cells().len(),
        a.cells().len() == a.spec_width() * a.spec_height(),
        forall|i: int|
            0 <= i < a.cells().len() ==> (#[trigger] b.cells()[i]).has_mine
                == a.cells()[i].has_mine,
    ensures
        forall|x: int, y: int| #[trigger] b.neighbor_mines(x, y) == a.neighbor_mines(x, y),
{
    assert forall|x: int, y: int| #[trigger] b.neighbor_mines(x, y) == a.neighbor_mines(
        x,
        y,
    ) by {
        lemma_mine_term_eq(a, b, x - 1, y - 1);
        lemma_mine_term_eq(a, b, x, y - 1);
        lemma_mine_term_eq(a, b, x + 1, y - 1);
        lemma_mine_term_eq(a, b, x - 1, y);
        lemma_mine_term_eq(a, b, x + 1, y);
        lemma_mine_term_eq(a, b, x - 1, y + 1);
        lemma_mine_term_eq(a, b, x, y + 1);
        lemma_mine_term_eq(a, b, x + 1, y + 1);
    }
}

/// A linear index into a well-formed board corresponds to exactly one
/// in-bounds coordinate pair.
proof fn lemma_index_to_coord(m: MineField, i: int)
    requires
        m.cells().len() == m.spec_width() * m.spec_height(),
        1 <= m.spec_width(),
        0 <= i < m.cells().len(),
    ensures
        m.in_bounds(i % m.spec_width(), i / m.spec_width()),
        (i / m.spec_width()) * m.spec_width() + (i % m.spec_width()) == i,
        m.cell_spec(i % m.spec_width(), i / m.spec_width()) == m.cells()[i],
{
    let w = m.spec_width();
    vstd::arithmetic::div_mod::lemma_fundamental_div_mod(i, w);
    assert((i / w) * w == w * (i / w));
    assert(i / w < m.spec_height()) by (nonlinear_arith)
        requires
            1 <= w,
            0 <= i < w * m.spec_height(),
    ;
    assert(0 <= i / w) by (nonlinear_arith)
        requires
            1 <= w,
            0 <= i,
    ;
}

/// The board is won exactly when the mine counter plus the revealed counter
/// covers the whole grid: that holds if and only if every safe cell has been
/// revealed.
pub proof fn lemma_win_count(m: MineField)
    requires
        m.wf(),
    ensures
        m.spec_mine_count() + m.spec_revealed_count() == m.spec_width() * m.spec_height()
            <==> m.all_safe_revealed(),
{
    let s = m.cells();
    let w = m.spec_width();
    crate::counting::lemma_count_matching_complement(s, mine_pred(), safe_pred());
    assert(forall|i: int|
        0 <= i < s.len() && revealed_safe_pred()(#[trigger] s[i]) ==> safe_pred()(s[i]));
    crate::counting::lemma_count_matching_pointwise_le(s, s, revealed_safe_pred());
    if m.all_safe_revealed() {
        assert forall|i: int| 0 <= i < s.len() implies (revealed_safe_pred()(#[trigger] s[i])
            <==> safe_pred()(s[i])) by {
            lemma_index_to_coord(m, i);
        }
        crate::counting::lemma_count_matching_ext(s, revealed_safe_pred(), safe_pred());
    }
    if m.spec_mine_count() + m.spec_revealed_count() == w * m.spec_height() {
        crate::counting::lemma_count_matching_eq_pointwise(s, revealed_safe_pred(), safe_pred());
        assert forall|x: int, y: int|
            m.in_bounds(x, y) && !(#[trigger] m.cell_spec(x, y)).has_mine implies m.cell_spec(
            x,
            y,
        ).is_revealed by {
            crate::towdarray::lemma_row_major_index_in_range(w, m.spec_height(), x, y);
            let idx = y * w + x;
            assert(safe_pred()(s[idx]) ==> revealed_safe_pred()(s[idx]));
        }
    }
}

/// Every cell that a flood path reaches is revealed in any extension of the
/// starting state that reveals the target and is closed under the cascade.
proof fn lemma_flood_path_revealed(
    pre: MineField,
    post: MineField,
    p: Seq<(int, int)>,
    tx: int,
    ty: int,
    cx: int,
    cy: int,
)
    requires
        pre.cells().len() == pre.spec_width() * pre.spec_height(),
        !pre.revealed_at(tx, ty),
        reveal_extends(pre, post),
        flood_closed(pre, post),
        post.revealed_at(tx, ty),
        is_flood_path(pre, p, (tx, ty), (cx, cy)),
    ensures
        post.revealed_at(cx, cy),
    decreases p.len(),
{
    if p.len() == 1 {
        assert(p[0] == (tx, ty) && p[0] == (cx, cy));
    } else {
        let q = p.drop_last();
        let last = p.len() - 1;
        let prev = p[last - 1];
        assert(forall|i: int| 0 <= i < q.len() ==> #[trigger] q[i] == p[i]);
        assert(is_flood_path(pre, q, (tx, ty), prev));
        lemma_flood_path_revealed(pre, post, q, tx, ty, prev.0, prev.1);
        assert(pre.propagates_at(prev.0, prev.1));
        if last - 1 >= 1 {
            assert(!pre.revealed_at(prev.0, prev.1));
        } else {
            assert(prev == (tx, ty));
        }
        assert(adjacent(prev.0, prev.1, p[last].0, p[last].1));
        assert(pre.in_bounds(p[last].0, p[last].1));
        assert(post.revealed_at(p[last].0, p[last].1));
    }
}

/// Completeness of the cascade: once the target is revealed and the state is
/// closed under flooding, every reachable cell is revealed.
pub proof fn lemma_flood_complete(pre: MineField, post: MineField, tx: int, ty: int)
    requires
        pre.cells().len() == pre.spec_width() * pre.spec_height(),
        !pre.revealed_at(tx, ty),
        reveal_extends(pre, post),
        flood_closed(pre, post),
        post.revealed_at(tx, ty),
    ensures
        forall|cx: int, cy: int|
            #[trigger] flood_reach(pre, tx, ty, cx, cy) ==> post.revealed_at(cx, cy),
{
    assert forall|cx: int, cy: int| #[trigger] flood_reach(pre, tx, ty, cx, cy) implies
        post.revealed_at(cx, cy) by {
        let p = choose|p: Seq<(int, int)>| is_flood_path(pre, p, (tx, ty), (cx, cy));
        lemma_flood_path_revealed(pre, post, p, tx, ty, cx, cy);
    }
}

/// The facts `wf` carries, stated once for callers: the grid dimensions are
/// small and positive, the storage has one cell per coordinate, the mine
/// counter counts the mines actually present, the revealed counter counts
/// exactly the revealed safe cells, and every stored neighbor count equals
/// the true count of adjacent mines.
pub proof fn lemma_board_invariant(m: MineField)
    requires
        m.wf(),
    ensures
        1 <= m.spec_width() <= 255,
        1 <= m.spec_height() <= 255,
        m.cells().len() == m.spec_width() * m.spec_height(),
        m.spec_mine_count() == count_matching(m.cells(), mine_pred()),
        m.spec_revealed_count() == count_matching(m.cells(), revealed_safe_pred()),
        0 <= m.spec_mine_count() <= m.cells().len(),
        0 <= m.spec_revealed_count() <= m.cells().len() - m.spec_mine_count(),
        m.counts_correct(),
{
    crate::counting::lemma_count_matching_bounds(m.cells(), mine_pred());
    crate::counting::lemma_count_matching_bounds(m.cells(), revealed_safe_pred());
    crate::counting::lemma_count_matching_complement(m.cells(), mine_pred(), safe_pred());
    assert(forall|i: int|
        0 <= i < m.cells().len() && revealed_safe_pred()(#[trigger] m.cells()[i])
            ==> safe_pred()(m.cells()[i]));
    crate::counting::lemma_count_matching_le(m.cells(), revealed_safe_pred(), safe_pred());
}

} // verus!
