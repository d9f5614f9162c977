//! The minefield: a rectangular grid of cells with hidden mines,
//! flag toggling, the flood-fill probe, and win detection.

use vstd::prelude::*;

verus! {

/// One square of the minefield.
///
/// `neighbors` is fixed at generation time: it holds the number of mine
/// cells among the up-to-8 grid-adjacent cells.
#[derive(Clone, Copy, PartialEq, Eq, Structural, Debug)]
pub struct Cell {
    pub is_mine: bool,
    pub is_flag: bool,
    pub is_visible: bool,
    pub neighbors: usize,
}

/// A rectangular board of cells, stored row-major: the cell at
/// row `r`, column `c` sits at index `r * width + c`.
pub struct Board {
    pub cells: Vec<Cell>,
    pub width: usize,
    pub height: usize,
}

impl Board {
    /// Both coordinates lie on the board.
    pub open spec fn in_bounds(self, r: int, c: int) -> bool {
        0 <= r < self.height && 0 <= c < self.width
    }

    /// Row-major index of position (r, c).
    pub open spec fn idx_of(self, r: int, c: int) -> int {
        r * self.width + c
    }

    /// The cell at position (r, c); meaningful when (r, c) is in bounds.
    pub open spec fn cell_at(self, r: int, c: int) -> Cell {
        self.cells@[self.idx_of(r, c)]
    }

    /// There is a mine at (r, c); false off the board.
    pub open spec fn mine_at(self, r: int, c: int) -> bool {
        self.in_bounds(r, c) && self.cell_at(r, c).is_mine
    }

    /// 1 if (r, c) holds a mine, else 0.
    pub open spec fn mine_ind(self, r: int, c: int) -> int {
        if self.mine_at(r, c) {
            1
        } else {
            0
        }
    }

    /// The exact number of mine cells among the up-to-8 in-bounds
    /// grid-adjacent neighbors of (r, c); a cell is never its own neighbor.
    #[verifier::opaque]
    pub open spec fn mine_count(self, r: int, c: int) -> int {
        self.mine_ind(r - 1, c - 1) + self.mine_ind(r - 1, c) + self.mine_ind(r - 1, c + 1)
            + self.mine_ind(r, c - 1) + self.mine_ind(r, c + 1) + self.mine_ind(r + 1, c - 1)
            + self.mine_ind(r + 1, c) + self.mine_ind(r + 1, c + 1)
    }

    /// The machine-level shape of the board: dimensions small enough for
    /// index arithmetic, and the cell vector of matching length.
    pub open spec fn dims_ok(self) -> bool {
        &&& self.width < 16
        &&& self.height < 16
        &&& self.cells@.len() == self.width * self.height
    }

    /// A well-formed board: dimensions in [8, 16), and every cell's
    /// stored neighbor count equal to the true number of adjacent mines.
    pub open spec fn wf(self) -> bool {
        &&& 8 <= self.width < 16
        &&& 8 <= self.height < 16
        &&& self.cells@.len() == self.width * self.height
        &&& forall|r: int, c: int|
            self.in_bounds(r, c) ==> (#[trigger] self.cell_at(r, c)).neighbors == self.mine_count(
                r,
                c,
            )
    }

    /// Safe accessor: a copy of the cell at (row, col), or `None` when the
    /// coordinates are off the board. Out-of-range coordinates are not an
    /// error; this is the uniform boundary check for moves and neighbors.
    pub fn getcell(&self, row: isize, col: isize) -> (res: Option<Cell>)
        requires
            self.dims_ok(),
        ensures
            match res {
                Some(cell) => self.in_bounds(row as int, col as int) && cell == self.cell_at(
                    row as int,
                    col as int,
                ),
                None => !self.in_bounds(row as int, col as int),
            },
    {
        if row >= 0 && col >= 0 && (row as usize) < self.height && (col as usize) < self.width {
            let r = row as usize;
            let c = col as usize;
            proof {
                lemma_idx_bounds(self.width as int, self.height as int, r as int, c as int);
            }
            Some(self.cells[r * self.width + c])
        } else {
            None
        }
    }
}

/// The positions (r1, c1) and (r2, c2) are distinct and grid-adjacent
/// (horizontally, vertically or diagonally).
pub open spec fn adjacent(r1: int, c1: int, r2: int, c2: int) -> bool {
    &&& (r1 != r2 || c1 != c2)
    &&& -1 <= r1 - r2 <= 1
    &&& -1 <= c1 - c2 <= 1
}

/// Same dimensions, and the generation-time data (mine placement and
/// neighbor counts) of every cell unchanged.
pub open spec fn same_layout(b0: Board, b1: Board) -> bool {
    &&& b1.width == b0.width
    &&& b1.height == b0.height
    &&& b1.cells@.len() == b0.cells@.len()
    &&& forall|r: int, c: int|
        #![trigger b0.cell_at(r, c)]
        #![trigger b1.cell_at(r, c)]
        b0.in_bounds(r, c) ==> b1.cell_at(r, c).is_mine == b0.cell_at(r, c).is_mine
            && b1.cell_at(r, c).neighbors == b0.cell_at(r, c).neighbors
}

/// Every cell visible in `b0` is still visible in `b1`.
pub open spec fn vis_mono(b0: Board, b1: Board) -> bool {
    forall|r: int, c: int|
        #![trigger b0.cell_at(r, c)]
        #![trigger b1.cell_at(r, c)]
        b0.in_bounds(r, c) && b0.cell_at(r, c).is_visible ==> b1.cell_at(r, c).is_visible
}

/// A cell keeps its flag unless it was revealed on the way from `b0`
/// to `b1`; revealing always clears the flag.
pub open spec fn flags_match(b0: Board, b1: Board) -> bool {
    forall|r: int, c: int|
        #![trigger b0.cell_at(r, c)]
        #![trigger b1.cell_at(r, c)]
        b0.in_bounds(r, c) ==> b1.cell_at(r, c).is_flag == (b0.cell_at(r, c).is_flag && !(
        b1.cell_at(r, c).is_visible && !b0.cell_at(r, c).is_visible))
}

/// No mine cell changed visibility between `b0` and `b1`.
pub open spec fn mines_stay_hidden(b0: Board, b1: Board) -> bool {
    forall|r: int, c: int|
        #![trigger b0.cell_at(r, c)]
        #![trigger b1.cell_at(r, c)]
        b0.in_bounds(r, c) && b0.cell_at(r, c).is_mine ==> b1.cell_at(r, c).is_visible
            == b0.cell_at(r, c).is_visible
}

/// All in-bounds neighbors of (r, c) are visible in `b`.
pub open spec fn nbrs_visible(b: Board, r: int, c: int) -> bool {
    forall|r2: int, c2: int|
        b.in_bounds(r2, c2) && adjacent(r, c, r2, c2) ==> (#[trigger] b.cell_at(
            r2,
            c2,
        )).is_visible
}

/// Every cell revealed between `b0` and `b1` that has no adjacent mines
/// has all of its neighbors visible in `b1`.
pub open spec fn new_zero_closed(b0: Board, b1: Board) -> bool {
    forall|r: int, c: int|
        #![trigger b0.cell_at(r, c)]
        #![trigger b1.cell_at(r, c)]
        b0.in_bounds(r, c) && b1.cell_at(r, c).is_visible && !b0.cell_at(r, c).is_visible
            && b0.mine_count(r, c) == 0 ==> nbrs_visible(b1, r, c)
}

/// As `new_zero_closed`, but the position (pr, pc) itself is exempt;
/// this is the state in the middle of a flood fill started at (pr, pc).
pub open spec fn new_zero_closed_except(b0: Board, b1: Board, pr: int, pc: int) -> bool {
    forall|r: int, c: int|
        #![trigger b0.cell_at(r, c)]
        #![trigger b1.cell_at(r, c)]
        b0.in_bounds(r, c) && (r != pr || c != pc) && b1.cell_at(r, c).is_visible && !b0.cell_at(
            r,
            c,
        ).is_visible && b0.mine_count(r, c) == 0 ==> nbrs_visible(b1, r, c)
}

/// `s` contains every cell visible in `b`, contains (pr, pc), and is
/// closed under stepping from a member with no adjacent mines to any of
/// its in-bounds neighbors. The set of cells a probe of (pr, pc) may
/// reveal is contained in every such set.
pub open spec fn flood_superset(b: Board, pr: int, pc: int, s: Set<(int, int)>) -> bool {
    &&& forall|r: int, c: int|
        #![trigger b.cell_at(r, c)]
        #![trigger s.contains((r, c))]
        b.in_bounds(r, c) && b.cell_at(r, c).is_visible ==> s.contains((r, c))
    &&& s.contains((pr, pc))
    &&& forall|r: int, c: int, r2: int, c2: int|
        #![trigger s.contains((r, c)), s.contains((r2, c2))]
        s.contains((r, c)) && b.in_bounds(r, c) && b.mine_count(r, c) == 0 && b.in_bounds(r2, c2)
            && adjacent(r, c, r2, c2) ==> s.contains((r2, c2))
}

/// Everything visible in `b1` lies in every flood-closed superset of
/// what was visible in `b0` together with (pr, pc): a probe of (pr, pc)
/// reveals no cell outside the flood region of (pr, pc).
pub open spec fn reveal_bounded(b0: Board, b1: Board, pr: int, pc: int) -> bool {
    forall|s: Set<(int, int)>|
        #[trigger] flood_superset(b0, pr, pc, s) ==> forall|r: int, c: int|
            #![trigger s.contains((r, c))]
            #![trigger b1.cell_at(r, c)]
            b0.in_bounds(r, c) && b1.cell_at(r, c).is_visible ==> s.contains((r, c))
}

impl Board {
    /// Every visible cell with no adjacent mines has all of its in-bounds
    /// neighbors visible. Freshly generated boards satisfy this vacuously,
    /// and every board operation preserves it.
    pub open spec fn flood_closed(self) -> bool {
        forall|r: int, c: int|
            self.in_bounds(r, c) && (#[trigger] self.cell_at(r, c)).is_visible && self.mine_count(
                r,
                c,
            ) == 0 ==> nbrs_visible(self, r, c)
    }

    /// The board is won: every mine is flagged and no non-mine is flagged.
    pub open spec fn won_spec(self) -> bool {
        forall|r: int, c: int|
            self.in_bounds(r, c) ==> (#[trigger] self.cell_at(r, c)).is_mine == self.cell_at(
                r,
                c,
            ).is_flag
    }
}

/// How many cells of `s` are not visible; the flood fill's termination
/// measure.
pub open spec fn hidden_count(s: Seq<Cell>) -> nat
    decreases s.len(),
{
    if s.len() == 0 {
        0
    } else {
        hidden_count(s.drop_last()) + if s.last().is_visible {
            0nat
        } else {
            1nat
        }
    }
}

/// Revealing cells never increases the number of hidden cells.
pub proof fn lemma_hidden_count_mono(s0: Seq<Cell>, s1: Seq<Cell>)
    requires
        s0.len() == s1.len(),
        forall|i: int| 0 <= i < s0.len() && (#[trigger] s0[i]).is_visible ==> s1[i].is_visible,
    ensures
        hidden_count(s1) <= hidden_count(s0),
    decreases s0.len(),
{
    if s0.len() > 0 {
        lemma_hidden_count_mono(s0.drop_last(), s1.drop_last());
    }
}

/// Revealing at least one previously hidden cell strictly decreases the
/// number of hidden cells.
pub proof fn lemma_hidden_count_strict(s0: Seq<Cell>, s1: Seq<Cell>, j: int)
    requires
        s0.len() == s1.len(),
        forall|i: int| 0 <= i < s0.len() && (#[trigger] s0[i]).is_visible ==> s1[i].is_visible,
        0 <= j < s0.len(),
        !s0[j].is_visible,
        s1[j].is_visible,
    ensures
        hidden_count(s1) < hidden_count(s0),
    decreases s0.len(),
{
    if j == s0.len() - 1 {
        lemma_hidden_count_mono(s0.drop_last(), s1.drop_last());
    } else {
        lemma_hidden_count_strict(s0.drop_last(), s1.drop_last(), j);
    }
}

/// Positive area means both dimensions are positive.
pub proof fn lemma_dims_pos(w: int, h: int)
    by (nonlinear_arith)
    requires
        0 <= w,
        0 <= h,
        0 < w * h,
    ensures
        0 < w,
        0 < h,
{
}

/// Every index into the cell vector names an in-bounds position.
pub proof fn lemma_flat_to_pos(w: int, h: int, i: int)
    by (nonlinear_arith)
    requires
        0 < w,
        0 <= i < w * h,
    ensures
        0 <= i / w < h,
        0 <= i % w < w,
        (i / w) * w + (i % w) == i,
{
}

/// Row-major indexing stays inside the cell vector.
pub proof fn lemma_idx_bounds(w: int, h: int, r: int, c: int)
    by (nonlinear_arith)
    requires
        0 <= r < h,
        0 <= c < w,
        w < 16,
        h < 16,
    ensures
        0 <= r * w + c < w * h,
        w * h < 256,
{
}

/// Row-major indexing is injective on in-bounds positions.
pub proof fn lemma_idx_inj(w: int, r1: int, c1: int, r2: int, c2: int)
    by (nonlinear_arith)
    requires
        0 <= c1 < w,
        0 <= c2 < w,
        0 <= r1,
        0 <= r2,
        r1 * w + c1 == r2 * w + c2,
    ensures
        r1 == r2 && c1 == c2,
{
}

/// Updating one cell leaves every other position unchanged.
pub proof fn lemma_cell_at_update(b0: Board, b1: Board, r0: int, c0: int, cell: Cell)
    requires
        b0.dims_ok(),
        b0.in_bounds(r0, c0),
        b1.width == b0.width,
        b1.height == b0.height,
        b1.cells@ == b0.cells@.update(b0.idx_of(r0, c0), cell),
    ensures
        b1.cells@.len() == b0.cells@.len(),
        b1.cell_at(r0, c0) == cell,
        forall|r: int, c: int|
            #![trigger b1.cell_at(r, c)]
            #![trigger b0.cell_at(r, c)]
            b0.in_bounds(r, c) && (r != r0 || c != c0) ==> b1.cell_at(r, c) == b0.cell_at(r, c),
{
    lemma_idx_bounds(b0.width as int, b0.height as int, r0, c0);
    assert forall|r: int, c: int|
        b0.in_bounds(r, c) && (r != r0 || c != c0) implies #[trigger] b1.cell_at(r, c)
        == b0.cell_at(r, c) by {
        lemma_idx_bounds(b0.width as int, b0.height as int, r, c);
        if b0.idx_of(r, c) == b0.idx_of(r0, c0) {
            lemma_idx_inj(b0.width as int, r, c, r0, c0);
        }
    }
}

/// Boards with the same dimensions and the same mine placement agree on
/// all neighbor-mine counts.
pub proof fn lemma_same_mines_counts(b0: Board, b1: Board)
    requires
        b1.width == b0.width,
        b1.height == b0.height,
        forall|r: int, c: int|
            #![trigger b0.cell_at(r, c)]
            #![trigger b1.cell_at(r, c)]
            b0.in_bounds(r, c) ==> b1.cell_at(r, c).is_mine == b0.cell_at(r, c).is_mine,
    ensures
        forall|r: int, c: int| #[trigger] b1.mine_count(r, c) == b0.mine_count(r, c),
{
    assert forall|r: int, c: int| #[trigger] b1.mine_count(r, c) == b0.mine_count(r, c) by {
        reveal(Board::mine_count);
        assert(b1.mine_ind(r - 1, c - 1) == b0.mine_ind(r - 1, c - 1)) by {
            if b0.in_bounds(r - 1, c - 1) {
                assert(b1.cell_at(r - 1, c - 1).is_mine == b0.cell_at(r - 1, c - 1).is_mine);
            }
        }
        assert(b1.mine_ind(r - 1, c) == b0.mine_ind(r - 1, c)) by {
            if b0.in_bounds(r - 1, c) {
                assert(b1.cell_at(r - 1, c).is_mine == b0.cell_at(r - 1, c).is_mine);
            }
        }
        assert(b1.mine_ind(r - 1, c + 1) == b0.mine_ind(r - 1, c + 1)) by {
            if b0.in_bounds(r - 1, c + 1) {
                assert(b1.cell_at(r - 1, c + 1).is_mine == b0.cell_at(r - 1, c + 1).is_mine);
            }
        }
        assert(b1.mine_ind(r, c - 1) == b0.mine_ind(r, c - 1)) by {
            if b0.in_bounds(r, c - 1) {
                assert(b1.cell_at(r, c - 1).is_mine == b0.cell_at(r, c - 1).is_mine);
            }
        }
        assert(b1.mine_ind(r, c + 1) == b0.mine_ind(r, c + 1)) by {
            if b0.in_bounds(r, c + 1) {
                assert(b1.cell_at(r, c + 1).is_mine == b0.cell_at(r, c + 1).is_mine);
            }
        }
        assert(b1.mine_ind(r + 1, c - 1) == b0.mine_ind(r + 1, c - 1)) by {
            if b0.in_bounds(r + 1, c - 1) {
                assert(b1.cell_at(r + 1, c - 1).is_mine == b0.cell_at(r + 1, c - 1).is_mine);
            }
        }
        assert(b1.mine_ind(r + 1, c) == b0.mine_ind(r + 1, c)) by {
            if b0.in_bounds(r + 1, c) {
                assert(b1.cell_at(r + 1, c).is_mine == b0.cell_at(r + 1, c).is_mine);
            }
        }
        assert(b1.mine_ind(r + 1, c + 1) == b0.mine_ind(r + 1, c + 1)) by {
            if b0.in_bounds(r + 1, c + 1) {
                assert(b1.cell_at(r + 1, c + 1).is_mine == b0.cell_at(r + 1, c + 1).is_mine);
            }
        }
    }
}

/// Boards with the same layout agree on all neighbor-mine counts, and
/// well-formedness carries over.
pub proof fn lemma_same_layout_counts(b0: Board, b1: Board)
    requires
        same_layout(b0, b1),
    ensures
        forall|r: int, c: int| #[trigger] b1.mine_count(r, c) == b0.mine_count(r, c),
        b0.wf() ==> b1.wf(),
        b0.dims_ok() ==> b1.dims_ok(),
{
    lemma_same_mines_counts(b0, b1);
    if b0.wf() {
        assert forall|r: int, c: int| b1.in_bounds(r, c) implies (#[trigger] b1.cell_at(
            r,
            c,
        )).neighbors == b1.mine_count(r, c) by {
            assert(b0.cell_at(r, c).neighbors == b0.mine_count(r, c));
        }
    }
}

/// A board whose visibility did not change keeps the flood-closure
/// property.
pub proof fn lemma_flood_closed_same_vis(b0: Board, b1: Board)
    requires
        same_layout(b0, b1),
        forall|r: int, c: int|
            b0.in_bounds(r, c) ==> (#[trigger] b1.cell_at(r, c)).is_visible == b0.cell_at(
                r,
                c,
            ).is_visible,
        b0.flood_closed(),
    ensures
        b1.flood_closed(),
{
    lemma_same_layout_counts(b0, b1);
    assert forall|r: int, c: int|
        b1.in_bounds(r, c) && (#[trigger] b1.cell_at(r, c)).is_visible && b1.mine_count(r, c)
            == 0 implies nbrs_visible(b1, r, c) by {
        assert(b0.cell_at(r, c).is_visible);
        assert(nbrs_visible(b0, r, c));
        assert forall|r2: int, c2: int|
            b1.in_bounds(r2, c2) && adjacent(r, c, r2, c2) implies (#[trigger] b1.cell_at(
            r2,
            c2,
        )).is_visible by {
            assert(b0.cell_at(r2, c2).is_visible);
        }
    }
}

/// Positionwise visibility growth, restated over the flat cell vector.
pub proof fn lemma_vis_mono_flat(b0: Board, b1: Board)
    requires
        b0.dims_ok(),
        b1.width == b0.width,
        b1.height == b0.height,
        b1.cells@.len() == b0.cells@.len(),
        vis_mono(b0, b1),
    ensures
        hidden_count(b1.cells@) <= hidden_count(b0.cells@),
{
    assert forall|i: int|
        0 <= i < b0.cells@.len() && (#[trigger] b0.cells@[i]).is_visible implies b1.cells@[i].is_visible by {
        let w = b0.width as int;
        let h = b0.height as int;
        lemma_dims_pos(w, h);
        lemma_flat_to_pos(w, h, i);
        let r = i / w;
        let c = i % w;
        assert(b0.in_bounds(r, c));
        assert(b0.cell_at(r, c).is_visible);
        assert(b1.cell_at(r, c).is_visible);
    }
    lemma_hidden_count_mono(b0.cells@, b1.cells@);
}

impl Board {
    /// Player toggles a cell's flag: a no-op off the board; on a visible
    /// cell the flag is forced to false; otherwise the flag is flipped.
    pub fn toggle_flag(&mut self, row: isize, col: isize)
        requires
            old(self).dims_ok(),
        ensures
            final(self).dims_ok(),
            same_layout(*old(self), *final(self)),
            !old(self).in_bounds(row as int, col as int) ==> *final(self) == *old(self),
            old(self).in_bounds(row as int, col as int) ==> final(self).cells@ == old(
                self,
            ).cells@.update(
                old(self).idx_of(row as int, col as int),
                (Cell {
                    is_flag: if old(self).cell_at(row as int, col as int).is_visible {
                        false
                    } else {
                        !old(self).cell_at(row as int, col as int).is_flag
                    },
                    ..old(self).cell_at(row as int, col as int)
                }),
            ),
            old(self).in_bounds(row as int, col as int) && old(self).cell_at(
                row as int,
                col as int,
            ).is_visible ==> !final(self).cell_at(row as int, col as int).is_flag,
            old(self).in_bounds(row as int, col as int) && !old(self).cell_at(
                row as int,
                col as int,
            ).is_visible ==> final(self).cell_at(row as int, col as int).is_flag == !old(
                self,
            ).cell_at(row as int, col as int).is_flag,
            old(self).in_bounds(row as int, col as int) && old(self).cell_at(
                row as int,
                col as int,
            ).is_visible && !old(self).cell_at(row as int, col as int).is_flag
                ==> final(self).cells@ == old(self).cells@,
            forall|r: int, c: int|
                old(self).in_bounds(r, c) ==> (#[trigger] final(self).cell_at(r, c)).is_visible
                    == old(self).cell_at(r, c).is_visible,
            old(self).flood_closed() ==> final(self).flood_closed(),
            old(self).wf() ==> final(self).wf(),
    {
        let ghost b0 = *self;
        if row >= 0 && col >= 0 && (row as usize) < self.height && (col as usize) < self.width {
            let r = row as usize;
            let c = col as usize;
            proof {
                lemma_idx_bounds(self.width as int, self.height as int, r as int, c as int);
            }
            let i = r * self.width + c;
            let mut cell = self.cells[i];
            if cell.is_visible {
                cell.is_flag = false;
            } else {
                cell.is_flag = !cell.is_flag;
            }
            self.cells.set(i, cell);
            proof {
                lemma_cell_at_update(b0, *self, r as int, c as int, cell);
                if b0.cell_at(r as int, c as int).is_visible && !b0.cell_at(
                    r as int,
                    c as int,
                ).is_flag {
                    assert(self.cells@ =~= b0.cells@);
                }
            }
        }
        proof {
            if b0.in_bounds(row as int, col as int) {
                lemma_same_layout_counts(b0, *self);
                if b0.flood_closed() {
                    lemma_flood_closed_same_vis(b0, *self);
                }
            }
        }
    }

    /// Uncover every cell; used once, for the final display after a win
    /// or a loss.
    pub fn make_visible(&mut self)
        requires
            old(self).dims_ok(),
        ensures
            final(self).dims_ok(),
            same_layout(*old(self), *final(self)),
            vis_mono(*old(self), *final(self)),
            forall|r: int, c: int|
                old(self).in_bounds(r, c) ==> (#[trigger] final(self).cell_at(r, c)) == (Cell {
                    is_visible: true,
                    ..old(self).cell_at(r, c)
                }),
            final(self).flood_closed(),
            old(self).wf() ==> final(self).wf(),
    {
        let ghost b0 = *self;
        let n = self.cells.len();
        let mut i: usize = 0;
        while i < n
            invariant
                i <= n,
                n == self.cells@.len(),
                self.width == b0.width,
                self.height == b0.height,
                self.cells@.len() == b0.cells@.len(),
                forall|j: int|
                    0 <= j < i ==> (#[trigger] self.cells@[j]) == (Cell {
                        is_visible: true,
                        ..b0.cells@[j]
                    }),
                forall|j: int| i <= j < n ==> (#[trigger] self.cells@[j]) == b0.cells@[j],
            decreases n - i,
        {
            let mut cell = self.cells[i];
            cell.is_visible = true;
            self.cells.set(i, cell);
            i += 1;
        }
        proof {
            assert forall|r: int, c: int| b0.in_bounds(r, c) implies (#[trigger] self.cell_at(r, c))
                == (Cell { is_visible: true, ..b0.cell_at(r, c) }) by {
                lemma_idx_bounds(b0.width as int, b0.height as int, r, c);
            }
            assert forall|r: int, c: int|
                self.in_bounds(r, c) && (#[trigger] self.cell_at(r, c)).is_visible
                    && self.mine_count(r, c) == 0 implies nbrs_visible(*self, r, c) by {
                assert forall|r2: int, c2: int|
                    self.in_bounds(r2, c2) && adjacent(r, c, r2, c2) implies (
                #[trigger] self.cell_at(r2, c2)).is_visible by {
                    assert(b0.in_bounds(r2, c2));
                }
            }
            lemma_same_layout_counts(b0, *self);
        }
    }

    /// The board is won iff every cell's mine bit equals its flag bit:
    /// all mines flagged, nothing else flagged.
    pub fn is_won(&self) -> (won: bool)
        requires
            self.dims_ok(),
        ensures
            won == self.won_spec(),
    {
        let n = self.cells.len();
        let mut i: usize = 0;
        while i < n
            invariant
                i <= n,
                n == self.cells@.len(),
                self.dims_ok(),
                forall|j: int|
                    0 <= j < i ==> (#[trigger] self.cells@[j]).is_mine == self.cells@[j].is_flag,
            decreases n - i,
        {
            let cell = self.cells[i];
            if cell.is_mine != cell.is_flag {
                proof {
                    let w = self.width as int;
                    let h = self.height as int;
                    lemma_dims_pos(w, h);
                    lemma_flat_to_pos(w, h, i as int);
                    let r = i as int / w;
                    let c = i as int % w;
                    assert(self.in_bounds(r, c));
                    assert(self.cell_at(r, c).is_mine != self.cell_at(r, c).is_flag);
                }
                return false;
            }
            i += 1;
        }
        proof {
            assert forall|r: int, c: int| self.in_bounds(r, c) implies (#[trigger] self.cell_at(
                r,
                c,
            )).is_mine == self.cell_at(r, c).is_flag by {
                lemma_idx_bounds(self.width as int, self.height as int, r, c);
            }
        }
        true
    }
}

impl Board {
    /// 1 if (r, c) is an in-bounds mine cell, else 0; safe for any
    /// coordinates.
    fn mine_ind_at(&self, r: isize, c: isize) -> (k: usize)
        requires
            self.dims_ok(),
        ensures
            k == self.mine_ind(r as int, c as int),
    {
        if r >= 0 && c >= 0 && (r as usize) < self.height && (c as usize) < self.width {
            proof {
                lemma_idx_bounds(self.width as int, self.height as int, r as int, c as int);
            }
            if self.cells[(r as usize) * self.width + (c as usize)].is_mine {
                1
            } else {
                0
            }
        } else {
            0
        }
    }

    /// Count the mines among the up-to-8 in-bounds neighbors of (r, c) by
    /// direct inspection.
    fn count_adjacent(&self, r: usize, c: usize) -> (cnt: usize)
        requires
            self.dims_ok(),
            r < self.height,
            c < self.width,
        ensures
            cnt == self.mine_count(r as int, c as int),
            cnt <= 8,
    {
        proof {
            reveal(Board::mine_count);
        }
        let ri = r as isize;
        let ci = c as isize;
        let mut cnt = self.mine_ind_at(ri - 1, ci - 1);
        cnt += self.mine_ind_at(ri - 1, ci);
        cnt += self.mine_ind_at(ri - 1, ci + 1);
        cnt += self.mine_ind_at(ri, ci - 1);
        cnt += self.mine_ind_at(ri, ci + 1);
        cnt += self.mine_ind_at(ri + 1, ci - 1);
        cnt += self.mine_ind_at(ri + 1, ci);
        cnt += self.mine_ind_at(ri + 1, ci + 1);
        cnt
    }

    /// Build a board from a given mine layout (row-major, one flag per
    /// position): all cells start hidden and unflagged, and every cell's
    /// neighbor count is computed from the layout.
    pub fn from_mines(width: usize, height: usize, mines: &Vec<bool>) -> (b: Board)
        requires
            8 <= width < 16,
            8 <= height < 16,
            mines@.len() == width * height,
        ensures
            b.wf(),
            b.width == width,
            b.height == height,
            forall|r: int, c: int|
                b.in_bounds(r, c) ==> !(#[trigger] b.cell_at(r, c)).is_visible && !b.cell_at(
                    r,
                    c,
                ).is_flag && b.cell_at(r, c).is_mine == mines@[r * width + c],
            b.flood_closed(),
    {
        let n = mines.len();
        let mut cells: Vec<Cell> = Vec::new();
        let mut i: usize = 0;
        while i < n
            invariant
                i <= n,
                n == mines@.len(),
                cells@.len() == i,
                forall|j: int|
                    0 <= j < i ==> (#[trigger] cells@[j]) == (Cell {
                        is_mine: mines@[j],
                        is_flag: false,
                        is_visible: false,
                        neighbors: 0,
                    }),
            decreases n - i,
        {
            cells.push(
                Cell { is_mine: mines[i], is_flag: false, is_visible: false, neighbors: 0 },
            );
            i += 1;
        }
        let mut b = Board { cells, width, height };
        let mut r: usize = 0;
        while r < height
            invariant
                r <= height,
                b.width == width,
                b.height == height,
                8 <= width < 16,
                8 <= height < 16,
                b.cells@.len() == width * height,
                n == width * height,
                forall|j: int|
                    0 <= j < b.cells@.len() ==> (#[trigger] b.cells@[j]).is_mine == mines@[j]
                        && !b.cells@[j].is_visible && !b.cells@[j].is_flag,
                forall|rr: int, cc: int|
                    b.in_bounds(rr, cc) && rr < r ==> (#[trigger] b.cell_at(rr, cc)).neighbors
                        == b.mine_count(rr, cc),
            decreases height - r,
        {
            let mut c: usize = 0;
            while c < width
                invariant
                    c <= width,
                    r < height,
                    b.width == width,
                    b.height == height,
                    8 <= width < 16,
                    8 <= height < 16,
                    b.cells@.len() == width * height,
                    forall|j: int|
                        0 <= j < b.cells@.len() ==> (#[trigger] b.cells@[j]).is_mine == mines@[j]
                            && !b.cells@[j].is_visible && !b.cells@[j].is_flag,
                    forall|rr: int, cc: int|
                        b.in_bounds(rr, cc) && (rr < r || (rr == r && cc < c)) ==> (
                        #[trigger] b.cell_at(rr, cc)).neighbors == b.mine_count(rr, cc),
                decreases width - c,
            {
                let cnt = b.count_adjacent(r, c);
                proof {
                    lemma_idx_bounds(width as int, height as int, r as int, c as int);
                }
                let pos = r * width + c;
                let mut cell = b.cells[pos];
                cell.neighbors = cnt;
                let ghost bprev = b;
                b.cells.set(pos, cell);
                proof {
                    lemma_cell_at_update(bprev, b, r as int, c as int, cell);
                    lemma_same_mines_counts(bprev, b);
                    assert forall|j: int|
                        0 <= j < b.cells@.len() implies (#[trigger] b.cells@[j]).is_mine
                        == mines@[j] && !b.cells@[j].is_visible && !b.cells@[j].is_flag by {
                        assert(bprev.cells@[j].is_mine == mines@[j]);
                    }
                    assert forall|rr: int, cc: int|
                        b.in_bounds(rr, cc) && (rr < r || (rr == r && cc < c + 1)) implies (
                    #[trigger] b.cell_at(rr, cc)).neighbors == b.mine_count(rr, cc) by {
                        if rr == r && cc == c {
                            assert(b.cell_at(rr, cc) == cell);
                        } else {
                            assert(b.cell_at(rr, cc) == bprev.cell_at(rr, cc));
                        }
                    }
                }
                c += 1;
            }
            r += 1;
        }
        proof {
            assert forall|r2: int, c2: int| b.in_bounds(r2, c2) implies !(#[trigger] b.cell_at(
                r2,
                c2,
            )).is_visible && !b.cell_at(r2, c2).is_flag && b.cell_at(r2, c2).is_mine == mines@[r2
                * width + c2] by {
                lemma_idx_bounds(width as int, height as int, r2, c2);
            }
        }
        b
    }

    /// Initialize a new random board: width and height drawn uniformly
    /// from [8, 16), and each cell a mine with probability 1/10.
    pub fn new() -> (b: Board)
        ensures
            b.wf(),
            b.flood_closed(),
            forall|r: int, c: int|
                b.in_bounds(r, c) ==> !(#[trigger] b.cell_at(r, c)).is_visible && !b.cell_at(
                    r,
                    c,
                ).is_flag,
    {
        let width = crate::rng::random_in_range(8, 16);
        let height = crate::rng::random_in_range(8, 16);
        proof {
            lemma_idx_bounds(width as int, height as int, 0, 0);
        }
        let n = width * height;
        let mut mines: Vec<bool> = Vec::new();
        let mut i: usize = 0;
        while i < n
            invariant
                i <= n,
                mines@.len() == i,
            decreases n - i,
        {
            mines.push(crate::rng::random_in_range(0, 10) == 0);
            i += 1;
        }
        Board::from_mines(width, height, &mines)
    }
}

/// The full relation between the board before and after a completed
/// probe of (pr, pc): layout unchanged, visibility grows, flags are kept
/// except on revealed cells, no mine is revealed, every revealed
/// zero-count cell is fully expanded, and nothing outside the flood
/// region of (pr, pc) is revealed.
pub open spec fn probe_rel(b0: Board, b1: Board, pr: int, pc: int) -> bool {
    &&& same_layout(b0, b1)
    &&& vis_mono(b0, b1)
    &&& flags_match(b0, b1)
    &&& mines_stay_hidden(b0, b1)
    &&& new_zero_closed(b0, b1)
    &&& reveal_bounded(b0, b1, pr, pc)
}

/// As `probe_rel`, but the probed cell itself may still await expansion:
/// the state in the middle of the flood fill.
pub open spec fn probe_rel_mid(b0: Board, b1: Board, pr: int, pc: int) -> bool {
    &&& same_layout(b0, b1)
    &&& vis_mono(b0, b1)
    &&& flags_match(b0, b1)
    &&& mines_stay_hidden(b0, b1)
    &&& new_zero_closed_except(b0, b1, pr, pc)
    &&& reveal_bounded(b0, b1, pr, pc)
}

/// An unchanged board is related to itself by `probe_rel`.
pub proof fn lemma_probe_rel_refl(b: Board, pr: int, pc: int)
    ensures
        probe_rel(b, b, pr, pc),
        probe_rel_mid(b, b, pr, pc),
{
    assert forall|s: Set<(int, int)>| #[trigger] flood_superset(b, pr, pc, s) implies forall|
        r: int,
        c: int,
    |
        #![trigger s.contains((r, c))]
        #![trigger b.cell_at(r, c)]
        b.in_bounds(r, c) && b.cell_at(r, c).is_visible ==> s.contains((r, c)) by {}
}

/// Visibility growth is transitive over boards of equal dimensions.
pub proof fn lemma_vis_mono_trans(a: Board, b: Board, c: Board)
    requires
        a.width == b.width,
        a.height == b.height,
        vis_mono(a, b),
        vis_mono(b, c),
    ensures
        vis_mono(a, c),
{
    assert forall|r: int, c2: int|
        a.in_bounds(r, c2) && (#[trigger] a.cell_at(r, c2)).is_visible implies (
    #[trigger] c.cell_at(r, c2)).is_visible by {
        assert(b.cell_at(r, c2).is_visible);
    }
}

/// Revealing one hidden non-mine cell: the resulting board stands in the
/// mid-flood relation to the original, and has strictly fewer hidden
/// cells.
pub proof fn lemma_reveal_one(b0: Board, b1: Board, pr: int, pc: int)
    requires
        b0.wf(),
        b0.in_bounds(pr, pc),
        !b0.cell_at(pr, pc).is_mine,
        !b0.cell_at(pr, pc).is_visible,
        b1.width == b0.width,
        b1.height == b0.height,
        b1.cells@ == b0.cells@.update(
            b0.idx_of(pr, pc),
            (Cell { is_visible: true, is_flag: false, ..b0.cell_at(pr, pc) }),
        ),
    ensures
        b1.wf(),
        probe_rel_mid(b0, b1, pr, pc),
        b1.cell_at(pr, pc).is_visible,
        !b1.cell_at(pr, pc).is_flag,
        hidden_count(b1.cells@) < hidden_count(b0.cells@),
{
    let cell = (Cell { is_visible: true, is_flag: false, ..b0.cell_at(pr, pc) });
    lemma_idx_bounds(b0.width as int, b0.height as int, pr, pc);
    lemma_cell_at_update(b0, b1, pr, pc, cell);
    lemma_same_layout_counts(b0, b1);
    assert forall|s: Set<(int, int)>| #[trigger] flood_superset(b0, pr, pc, s) implies forall|
        r: int,
        c: int,
    |
        #![trigger s.contains((r, c))]
        #![trigger b1.cell_at(r, c)]
        b0.in_bounds(r, c) && b1.cell_at(r, c).is_visible ==> s.contains((r, c)) by {
        assert forall|r: int, c: int|
            b0.in_bounds(r, c) && (#[trigger] b1.cell_at(r, c)).is_visible implies s.contains(
            (r, c),
        ) by {
            if r == pr && c == pc {
                assert(s.contains((pr, pc)));
            } else {
                assert(b0.cell_at(r, c).is_visible);
            }
        }
    }
    let i = b0.idx_of(pr, pc);
    assert forall|j: int|
        0 <= j < b0.cells@.len() && (#[trigger] b0.cells@[j]).is_visible implies b1.cells@[j].is_visible by {}
    lemma_hidden_count_strict(b0.cells@, b1.cells@, i);
}

/// One completed neighbor probe extends the mid-flood relation: what the
/// inner probe revealed still lies inside the flood region of the
/// original probe target.
pub proof fn lemma_probe_compose(
    b0: Board,
    bk: Board,
    bk1: Board,
    pr: int,
    pc: int,
    nr: int,
    nc: int,
)
    requires
        b0.wf(),
        probe_rel_mid(b0, bk, pr, pc),
        probe_rel(bk, bk1, nr, nc),
        b0.in_bounds(pr, pc),
        b0.mine_count(pr, pc) == 0,
        b0.in_bounds(nr, nc),
        adjacent(pr, pc, nr, nc),
    ensures
        probe_rel_mid(b0, bk1, pr, pc),
{
    lemma_same_layout_counts(b0, bk);
    lemma_same_layout_counts(bk, bk1);
    assert forall|r: int, c: int| b0.in_bounds(r, c) implies (#[trigger] bk1.cell_at(
        r,
        c,
    )).is_mine == b0.cell_at(r, c).is_mine && bk1.cell_at(r, c).neighbors == b0.cell_at(
        r,
        c,
    ).neighbors by {
        assert(bk.cell_at(r, c).is_mine == b0.cell_at(r, c).is_mine);
        assert(bk1.cell_at(r, c).is_mine == bk.cell_at(r, c).is_mine);
    }
    assert forall|r: int, c: int|
        b0.in_bounds(r, c) && (#[trigger] b0.cell_at(r, c)).is_visible implies (
    #[trigger] bk1.cell_at(r, c)).is_visible by {
        assert(bk.cell_at(r, c).is_visible);
    }
    assert forall|r: int, c: int| b0.in_bounds(r, c) implies (#[trigger] bk1.cell_at(
        r,
        c,
    )).is_flag == (b0.cell_at(r, c).is_flag && !(bk1.cell_at(r, c).is_visible && !b0.cell_at(
        r,
        c,
    ).is_visible)) by {
        assert(bk.cell_at(r, c).is_flag == (b0.cell_at(r, c).is_flag && !(bk.cell_at(
            r,
            c,
        ).is_visible && !b0.cell_at(r, c).is_visible)));
        assert(bk1.cell_at(r, c).is_flag == (bk.cell_at(r, c).is_flag && !(bk1.cell_at(
            r,
            c,
        ).is_visible && !bk.cell_at(r, c).is_visible)));
        if b0.cell_at(r, c).is_visible {
            assert(bk.cell_at(r, c).is_visible);
        }
    }
    assert forall|r: int, c: int|
        b0.in_bounds(r, c) && (#[trigger] b0.cell_at(r, c)).is_mine implies (
    #[trigger] bk1.cell_at(r, c)).is_visible == b0.cell_at(r, c).is_visible by {
        assert(bk.cell_at(r, c).is_mine == b0.cell_at(r, c).is_mine);
        assert(bk.cell_at(r, c).is_visible == b0.cell_at(r, c).is_visible);
        assert(bk1.cell_at(r, c).is_visible == bk.cell_at(r, c).is_visible);
    }
    assert forall|r: int, c: int|
        b0.in_bounds(r, c) && (r != pr || c != pc) && (#[trigger] bk1.cell_at(r, c)).is_visible
            && !(#[trigger] b0.cell_at(r, c)).is_visible && b0.mine_count(r, c)
            == 0 implies nbrs_visible(bk1, r, c) by {
        if bk.cell_at(r, c).is_visible {
            assert(nbrs_visible(bk, r, c));
            assert forall|r2: int, c2: int|
                bk1.in_bounds(r2, c2) && adjacent(r, c, r2, c2) implies (#[trigger] bk1.cell_at(
                r2,
                c2,
            )).is_visible by {
                assert(bk.cell_at(r2, c2).is_visible);
            }
        } else {
            assert(bk.mine_count(r, c) == b0.mine_count(r, c));
            assert(nbrs_visible(bk1, r, c));
        }
    }
    assert forall|s: Set<(int, int)>| #[trigger] flood_superset(b0, pr, pc, s) implies forall|
        r: int,
        c: int,
    |
        #![trigger s.contains((r, c))]
        #![trigger bk1.cell_at(r, c)]
        b0.in_bounds(r, c) && bk1.cell_at(r, c).is_visible ==> s.contains((r, c)) by {
        assert(s.contains((pr, pc)));
        assert(s.contains((nr, nc)));
        assert(flood_superset(bk, nr, nc, s)) by {
            assert forall|r: int, c: int|
                bk.in_bounds(r, c) && (#[trigger] bk.cell_at(r, c)).is_visible implies s.contains(
                (r, c),
            ) by {}
            assert forall|r: int, c: int, r2: int, c2: int|
                #![trigger s.contains((r, c)), s.contains((r2, c2))]
                s.contains((r, c)) && bk.in_bounds(r, c) && bk.mine_count(r, c) == 0
                    && bk.in_bounds(r2, c2) && adjacent(r, c, r2, c2) implies s.contains(
                (r2, c2),
            ) by {
                assert(b0.mine_count(r, c) == 0);
            }
        }
        assert forall|r: int, c: int|
            b0.in_bounds(r, c) && (#[trigger] bk1.cell_at(r, c)).is_visible implies s.contains(
            (r, c),
        ) by {}
    }
}

/// A neighbor count is the sum of eight 0/1 terms.
pub proof fn lemma_mine_count_bounds(b: Board, r: int, c: int)
    ensures
        0 <= b.mine_count(r, c) <= 8,
{
    reveal(Board::mine_count);
}

/// A neighbor of a cell with no adjacent mines is never a mine.
pub proof fn lemma_zero_count_no_mine_neighbor(b: Board, pr: int, pc: int, nr: int, nc: int)
    requires
        b.mine_count(pr, pc) == 0,
        adjacent(pr, pc, nr, nc),
        b.in_bounds(nr, nc),
    ensures
        !b.cell_at(nr, nc).is_mine,
{
    reveal(Board::mine_count);
    assert(b.mine_ind(nr, nc) == 0);
}

/// A completed probe preserves the flood-closure invariant of the board.
pub proof fn lemma_probe_rel_flood_closed(b0: Board, b1: Board, pr: int, pc: int)
    requires
        b0.wf(),
        b0.flood_closed(),
        probe_rel(b0, b1, pr, pc),
    ensures
        b1.flood_closed(),
{
    lemma_same_layout_counts(b0, b1);
    assert forall|r: int, c: int|
        b1.in_bounds(r, c) && (#[trigger] b1.cell_at(r, c)).is_visible && b1.mine_count(r, c)
            == 0 implies nbrs_visible(b1, r, c) by {
        assert(b1.mine_count(r, c) == b0.mine_count(r, c));
        if b0.cell_at(r, c).is_visible {
            assert(nbrs_visible(b0, r, c));
            assert forall|r2: int, c2: int|
                b1.in_bounds(r2, c2) && adjacent(r, c, r2, c2) implies (#[trigger] b1.cell_at(
                r2,
                c2,
            )).is_visible by {
                assert(b0.cell_at(r2, c2).is_visible);
            }
        } else {
            assert(nbrs_visible(b1, r, c));
        }
    }
}

/// After one neighbor probe inside a flood fill: the mid-flood relation
/// to the pre-probe board `b0` is extended, the neighbor (if on the
/// board) is now visible and was no mine, and the hidden-cell measure
/// did not grow.
proof fn lemma_flood_step(b0: Board, bk: Board, bk1: Board, pr: int, pc: int, nr: int, nc: int)
    requires
        b0.wf(),
        probe_rel_mid(b0, bk, pr, pc),
        probe_rel(bk, bk1, nr, nc),
        b0.in_bounds(pr, pc),
        b0.mine_count(pr, pc) == 0,
        adjacent(pr, pc, nr, nc),
        !b0.in_bounds(nr, nc) ==> bk1 == bk,
        b0.in_bounds(nr, nc) ==> bk1.cell_at(nr, nc).is_visible || (bk.in_bounds(nr, nc)
            && bk.cell_at(nr, nc).is_mine),
    ensures
        probe_rel_mid(b0, bk1, pr, pc),
        hidden_count(bk1.cells@) <= hidden_count(bk.cells@),
        b0.in_bounds(nr, nc) ==> bk1.cell_at(nr, nc).is_visible,
        !bk.in_bounds(nr, nc) || !bk.cell_at(nr, nc).is_mine,
{
    lemma_same_layout_counts(b0, bk);
    if b0.in_bounds(nr, nc) {
        lemma_zero_count_no_mine_neighbor(b0, pr, pc, nr, nc);
        assert(bk.cell_at(nr, nc).is_mine == b0.cell_at(nr, nc).is_mine);
        lemma_probe_compose(b0, bk, bk1, pr, pc, nr, nc);
    }
    lemma_vis_mono_flat(bk, bk1);
}

/// Everything a probe of (ri, ci) guarantees about the board `b1` it
/// leaves behind and the result `res` it returns, relative to the board
/// `b0` it started from.
pub open spec fn probe_post(b0: Board, b1: Board, ri: int, ci: int, res: Result<(), ()>) -> bool {
    &&& b1.wf()
    &&& probe_rel(b0, b1, ri, ci)
    &&& ((res is Err) <==> (b0.in_bounds(ri, ci) && b0.cell_at(ri, ci).is_mine))
    &&& (res is Err ==> b1 == b0)
    &&& (!b0.in_bounds(ri, ci) ==> b1 == b0)
    &&& (b0.in_bounds(ri, ci) && b0.cell_at(ri, ci).is_visible && !b0.cell_at(ri, ci).is_mine
        ==> b1 == b0)
    &&& (res is Ok && b0.in_bounds(ri, ci) ==> b1.cell_at(ri, ci).is_visible)
    &&& (res is Ok && b0.in_bounds(ri, ci) && !b0.cell_at(ri, ci).is_visible ==> !b1.cell_at(
        ri,
        ci,
    ).is_flag)
    &&& (b0.in_bounds(ri, ci) && !b0.cell_at(ri, ci).is_mine && !b0.cell_at(ri, ci).is_visible
        && b0.cell_at(ri, ci).neighbors != 0 ==> b1.cells@ == b0.cells@.update(
        b0.idx_of(ri, ci),
        (Cell { is_visible: true, is_flag: false, ..b0.cell_at(ri, ci) }),
    ))
    &&& hidden_count(b1.cells@) <= hidden_count(b0.cells@)
    &&& (b0.in_bounds(ri, ci) && !b0.cell_at(ri, ci).is_mine && !b0.cell_at(ri, ci).is_visible
        ==> hidden_count(b1.cells@) < hidden_count(b0.cells@))
    &&& (b0.flood_closed() ==> b1.flood_closed())
}

impl Board {
    /// Player probes a cell. Out-of-range coordinates are a no-op; a mine
    /// yields the detonation signal `Err(())` and leaves the board
    /// untouched; an already-visible cell is a no-op; otherwise the cell
    /// is revealed and unflagged, and a cell with no adjacent mines
    /// flood-fills its whole zero-count region.
    pub fn probe(&mut self, row: isize, col: isize) -> (res: Result<(), ()>)
        requires
            old(self).wf(),
        ensures
            final(self).wf(),
            probe_post(*old(self), *final(self), row as int, col as int, res),
            probe_rel(*old(self), *final(self), row as int, col as int),
            (res is Err) <==> (old(self).in_bounds(row as int, col as int) && old(self).cell_at(
                row as int,
                col as int,
            ).is_mine),
            res is Err ==> *final(self) == *old(self),
            !old(self).in_bounds(row as int, col as int) ==> *final(self) == *old(self),
            old(self).in_bounds(row as int, col as int) && old(self).cell_at(
                row as int,
                col as int,
            ).is_visible && !old(self).cell_at(row as int, col as int).is_mine ==> *final(self)
                == *old(self),
            res is Ok && old(self).in_bounds(row as int, col as int) ==> final(self).cell_at(
                row as int,
                col as int,
            ).is_visible,
            res is Ok && old(self).in_bounds(row as int, col as int) && !old(self).cell_at(
                row as int,
                col as int,
            ).is_visible ==> !final(self).cell_at(row as int, col as int).is_flag,
            old(self).flood_closed() ==> final(self).flood_closed(),
    {
        let mut work = Board { cells: Vec::new(), width: 0, height: 0 };
        core::mem::swap(self, &mut work);
        let out = Board::probe_go(work, row, col);
        *self = out.0;
        out.1
    }

    /// The recursive flood-fill worker behind `probe`: it owns the board
    /// while it works, so that termination rests on the strictly
    /// shrinking number of hidden cells.
    #[verifier::rlimit(100)]
    fn probe_go(start: Board, row: isize, col: isize) -> (out: (Board, Result<(), ()>))
        requires
            start.wf(),
        ensures
            probe_post(start, out.0, row as int, col as int, out.1),
        decreases hidden_count(start.cells@),
    {
        let ghost b0 = start;
        let mut b = start;
        if !(row >= 0 && col >= 0 && (row as usize) < b.height && (col as usize) < b.width) {
            proof {
                lemma_probe_rel_refl(b0, row as int, col as int);
            }
            return (b, Ok(()));
        }
        let r = row as usize;
        let c = col as usize;
        proof {
            lemma_idx_bounds(b.width as int, b.height as int, r as int, c as int);
        }
        let pos = r * b.width + c;
        let cell = b.cells[pos];
        if cell.is_mine {
            proof {
                lemma_probe_rel_refl(b0, row as int, col as int);
            }
            return (b, Err(()));
        }
        if cell.is_visible {
            proof {
                lemma_probe_rel_refl(b0, row as int, col as int);
            }
            return (b, Ok(()));
        }
        let mut cell2 = cell;
        cell2.is_visible = true;
        cell2.is_flag = false;
        b.cells.set(pos, cell2);
        proof {
            assert(b.cells@ == b0.cells@.update(
                b0.idx_of(row as int, col as int),
                (Cell { is_visible: true, is_flag: false, ..b0.cell_at(row as int, col as int) }),
            ));
            lemma_reveal_one(b0, b, row as int, col as int);
        }
        if cell.neighbors == 0 {
            let ghost ri = row as int;
            let ghost ci = col as int;
            let ghost g0 = b;
            proof {
                assert(b0.mine_count(ri, ci) == 0);
                assert(hidden_count(b.cells@) < hidden_count(b0.cells@));
            }
            let out1 = Board::probe_go(b, row - 1, col - 1);
            b = out1.0;
            let ghost g1 = b;
            proof {
                lemma_flood_step(b0, g0, g1, ri, ci, ri - 1, ci - 1);
            }
            let out2 = Board::probe_go(b, row - 1, col);
            b = out2.0;
            let ghost g2 = b;
            proof {
                lemma_flood_step(b0, g1, g2, ri, ci, ri - 1, ci);
            }
            let out3 = Board::probe_go(b, row - 1, col + 1);
            b = out3.0;
            let ghost g3 = b;
            proof {
                lemma_flood_step(b0, g2, g3, ri, ci, ri - 1, ci + 1);
            }
            let out4 = Board::probe_go(b, row, col - 1);
            b = out4.0;
            let ghost g4 = b;
            proof {
                lemma_flood_step(b0, g3, g4, ri, ci, ri, ci - 1);
            }
            let out5 = Board::probe_go(b, row, col + 1);
            b = out5.0;
            let ghost g5 = b;
            proof {
                lemma_flood_step(b0, g4, g5, ri, ci, ri, ci + 1);
            }
            let out6 = Board::probe_go(b, row + 1, col - 1);
            b = out6.0;
            let ghost g6 = b;
            proof {
                lemma_flood_step(b0, g5, g6, ri, ci, ri + 1, ci - 1);
            }
            let out7 = Board::probe_go(b, row + 1, col);
            b = out7.0;
            let ghost g7 = b;
            proof {
                lemma_flood_step(b0, g6, g7, ri, ci, ri + 1, ci);
            }
            let out8 = Board::probe_go(b, row + 1, col + 1);
            b = out8.0;
            let ghost g8 = b;
            proof {
                lemma_flood_step(b0, g7, g8, ri, ci, ri + 1, ci + 1);
                lemma_vis_mono_trans(g7, g8, b);
                lemma_vis_mono_trans(g6, g7, b);
                lemma_vis_mono_trans(g5, g6, b);
                lemma_vis_mono_trans(g4, g5, b);
                lemma_vis_mono_trans(g3, g4, b);
                lemma_vis_mono_trans(g2, g3, b);
                lemma_vis_mono_trans(g1, g2, b);
                assert forall|r2: int, c2: int|
                    b.in_bounds(r2, c2) && adjacent(ri, ci, r2, c2) implies (#[trigger] b.cell_at(
                    r2,
                    c2,
                )).is_visible by {
                    assert(b0.in_bounds(r2, c2));
                    if r2 == ri - 1 && c2 == ci - 1 {
                        assert(g1.cell_at(r2, c2).is_visible);
                    } else if r2 == ri - 1 && c2 == ci {
                        assert(g2.cell_at(r2, c2).is_visible);
                    } else if r2 == ri - 1 && c2 == ci + 1 {
                        assert(g3.cell_at(r2, c2).is_visible);
                    } else if r2 == ri && c2 == ci - 1 {
                        assert(g4.cell_at(r2, c2).is_visible);
                    } else if r2 == ri && c2 == ci + 1 {
                        assert(g5.cell_at(r2, c2).is_visible);
                    } else if r2 == ri + 1 && c2 == ci - 1 {
                        assert(g6.cell_at(r2, c2).is_visible);
                    } else if r2 == ri + 1 && c2 == ci {
                        assert(g7.cell_at(r2, c2).is_visible);
                    } else {
                        assert(r2 == ri + 1 && c2 == ci + 1);
                        assert(g8.cell_at(r2, c2).is_visible);
                    }
                }
            }
        }
        proof {
            let ri = row as int;
            let ci = col as int;
            // the probed cell itself is now expanded (or has a non-zero
            // count), so the exemption can be dropped
            assert forall|r2: int, c2: int|
                b0.in_bounds(r2, c2) && (#[trigger] b.cell_at(r2, c2)).is_visible && !(
                #[trigger] b0.cell_at(r2, c2)).is_visible && b0.mine_count(r2, c2)
                    == 0 implies nbrs_visible(b, r2, c2) by {
                if r2 == ri && c2 == ci {
                    assert(b0.cell_at(ri, ci).neighbors == b0.mine_count(ri, ci));
                }
            }
            lemma_same_layout_counts(b0, b);
            if b0.flood_closed() {
                lemma_probe_rel_flood_closed(b0, b, ri, ci);
            }
        }
        (b, Ok(()))
    }
}

impl Board {
    /// The positions of all flagged cells.
    pub open spec fn flagged_set(self) -> Set<(int, int)> {
        Set::new(|p: (int, int)| self.in_bounds(p.0, p.1) && self.cell_at(p.0, p.1).is_flag)
    }

    /// The positions of all mine cells.
    pub open spec fn mine_set(self) -> Set<(int, int)> {
        Set::new(|p: (int, int)| self.in_bounds(p.0, p.1) && self.cell_at(p.0, p.1).is_mine)
    }
}

/// The board is won exactly when the set of flagged cells equals the set
/// of mine cells: every mine flagged, and nothing else.
pub proof fn lemma_won_iff_flags_equal_mines(b: Board)
    ensures
        b.won_spec() <==> (b.flagged_set() == b.mine_set()),
{
    if b.won_spec() {
        assert(b.flagged_set() =~= b.mine_set());
    }
    if b.flagged_set() == b.mine_set() {
        assert forall|r: int, c: int| b.in_bounds(r, c) implies (#[trigger] b.cell_at(
            r,
            c,
        )).is_mine == b.cell_at(r, c).is_flag by {
            assert(b.flagged_set().contains((r, c)) == b.mine_set().contains((r, c)));
        }
    }
}

/// Two boards that both satisfy the probe contract for the same probe
/// into a flood-closed board have exactly the same visible cells: the
/// contract pins the revealed region down.
pub proof fn lemma_probe_region_unique(b0: Board, b1: Board, b2: Board, pr: int, pc: int)
    requires
        b0.wf(),
        b0.flood_closed(),
        b0.in_bounds(pr, pc),
        !b0.cell_at(pr, pc).is_mine,
        probe_post(b0, b1, pr, pc, Ok(())),
        probe_post(b0, b2, pr, pc, Ok(())),
    ensures
        forall|r: int, c: int|
            b0.in_bounds(r, c) ==> ((#[trigger] b1.cell_at(r, c)).is_visible <==> b2.cell_at(
                r,
                c,
            ).is_visible),
{
    lemma_probe_visible_within(b0, b1, b2, pr, pc);
    lemma_probe_visible_within(b0, b2, b1, pr, pc);
}

/// One direction of `lemma_probe_region_unique`: whatever one probe
/// outcome reveals, the other has revealed too.
proof fn lemma_probe_visible_within(b0: Board, b1: Board, b2: Board, pr: int, pc: int)
    requires
        b0.wf(),
        b0.flood_closed(),
        b0.in_bounds(pr, pc),
        !b0.cell_at(pr, pc).is_mine,
        probe_post(b0, b1, pr, pc, Ok(())),
        probe_post(b0, b2, pr, pc, Ok(())),
    ensures
        forall|r: int, c: int|
            b0.in_bounds(r, c) && (#[trigger] b1.cell_at(r, c)).is_visible ==> b2.cell_at(
                r,
                c,
            ).is_visible,
{
    let s2 = Set::new(|p: (int, int)| b0.in_bounds(p.0, p.1) && b2.cell_at(p.0, p.1).is_visible);
    assert(flood_superset(b0, pr, pc, s2)) by {
        assert forall|r: int, c: int|
            b0.in_bounds(r, c) && (#[trigger] b0.cell_at(r, c)).is_visible implies s2.contains(
            (r, c),
        ) by {
            assert(b2.cell_at(r, c).is_visible);
        }
        assert(b2.cell_at(pr, pc).is_visible);
        assert(s2.contains((pr, pc)));
        assert forall|r: int, c: int, r2: int, c2: int|
            #![trigger s2.contains((r, c)), s2.contains((r2, c2))]
            s2.contains((r, c)) && b0.in_bounds(r, c) && b0.mine_count(r, c) == 0 && b0.in_bounds(
                r2,
                c2,
            ) && adjacent(r, c, r2, c2) implies s2.contains((r2, c2)) by {
            if b0.cell_at(r, c).is_visible {
                assert(nbrs_visible(b0, r, c));
                assert(b0.cell_at(r2, c2).is_visible);
                assert(b2.cell_at(r2, c2).is_visible);
            } else {
                assert(nbrs_visible(b2, r, c));
                assert(b2.cell_at(r2, c2).is_visible);
            }
        }
    }
    assert forall|r: int, c: int|
        b0.in_bounds(r, c) && (#[trigger] b1.cell_at(r, c)).is_visible implies b2.cell_at(
        r,
        c,
    ).is_visible by {
        assert(s2.contains((r, c)));
    }
}

} // verus!
