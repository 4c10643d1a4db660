//! Counting the cells of a rectangular board that a set of pieces leaves
//! free.
//!
//! The cells are numbered row by row, starting with 0 in the top-left corner.
//! Everything here is ghost code, definitions and lemmas; the snake game runs
//! the matching loops.

use vstd::arithmetic::div_mod::{
    lemma_fundamental_div_mod,
    lemma_fundamental_div_mod_converse,
    lemma_mod_bound,
    lemma_multiply_divide_lt,
};
use vstd::arithmetic::mul::{lemma_mul_inequality, lemma_mul_is_commutative};
use vstd::prelude::*;

verus! {

/// A cell as column and row.
pub type CellView = (int, int);

/// A board of `cols` columns and `rows` rows. A board with a side that is not
/// positive has no cells.
pub struct Board {
    pub cols: int,
    pub rows: int,
}

impl Board {
    /// The number of cells.
    pub open spec fn cells(self) -> int {
        if self.cols > 0 && self.rows > 0 {
            self.cols * self.rows
        } else {
            0
        }
    }

    /// Whether the cell lies on the board.
    pub open spec fn contains(self, cell: CellView) -> bool {
        0 <= cell.0 < self.cols && 0 <= cell.1 < self.rows
    }

    /// The cell with the given number.
    pub open spec fn cell_at(self, index: int) -> CellView {
        (index % self.cols, index / self.cols)
    }

    /// The number of the cell.
    pub open spec fn index_of(self, cell: CellView) -> int {
        cell.1 * self.cols + cell.0
    }

    /// Whether no piece of `body` lies on the cell with the given number.
    pub open spec fn is_free(self, body: Seq<CellView>, index: int) -> bool {
        !body.contains(self.cell_at(index))
    }

    /// How many cells numbered `from` or higher are free of `body`.
    pub open spec fn free_from(self, body: Seq<CellView>, from: int) -> nat
        decreases self.cells() - from,
    {
        if from < 0 || from >= self.cells() {
            0
        } else if self.is_free(body, from) {
            1 + self.free_from(body, from + 1)
        } else {
            self.free_from(body, from + 1)
        }
    }

    /// How many cells are free of `body`.
    pub open spec fn free_cells(self, body: Seq<CellView>) -> nat {
        self.free_from(body, 0)
    }

    /// How many cells numbered `from` or higher hold a piece of `body`.
    pub open spec fn taken_from(self, body: Seq<CellView>, from: int) -> nat
        decreases self.cells() - from,
    {
        if from < 0 || from >= self.cells() {
            0
        } else if self.is_free(body, from) {
            self.taken_from(body, from + 1)
        } else {
            1 + self.taken_from(body, from + 1)
        }
    }

    /// The number of the free cell that has exactly `skip` free cells between
    /// `from` and itself, or the number of cells if there is none.
    pub open spec fn nth_free_from(self, body: Seq<CellView>, skip: nat, from: int) -> int
        decreases self.cells() - from,
    {
        if from < 0 || from >= self.cells() {
            self.cells()
        } else if !self.is_free(body, from) {
            self.nth_free_from(body, skip, from + 1)
        } else if skip == 0 {
            from
        } else {
            self.nth_free_from(body, (skip - 1) as nat, from + 1)
        }
    }

    /// The free cell that has exactly `skip` free cells before it in row
    /// order.
    pub open spec fn nth_free(self, body: Seq<CellView>, skip: nat) -> CellView {
        self.cell_at(self.nth_free_from(body, skip, 0))
    }

    /// Every numbered cell lies on the board.
    pub proof fn lemma_cell_at_on_board(self, index: int)
        requires
            0 <= index < self.cells(),
        ensures
            self.contains(self.cell_at(index)),
            self.index_of(self.cell_at(index)) == index,
    {
        lemma_mod_bound(index, self.cols);
        lemma_fundamental_div_mod(index, self.cols);
        lemma_multiply_divide_lt(index, self.cols, self.rows);
        lemma_mul_is_commutative(self.cols, index / self.cols);
        let row = index / self.cols;
        if row < 0 {
            lemma_mul_inequality(row, -1, self.cols);
        }
    }

    /// Every cell on the board has a number, and the cell with that number is
    /// the cell itself.
    pub proof fn lemma_index_of_on_board(self, cell: CellView)
        requires
            self.contains(cell),
        ensures
            0 <= self.index_of(cell) < self.cells(),
            self.cell_at(self.index_of(cell)) == cell,
    {
        lemma_fundamental_div_mod_converse(self.index_of(cell), self.cols, cell.1, cell.0);
        lemma_mul_inequality(0, cell.1, self.cols);
        lemma_mul_inequality(cell.1 + 1, self.rows, self.cols);
        lemma_mul_is_commutative(self.cols, self.rows);
        assert((cell.1 + 1) * self.cols == cell.1 * self.cols + self.cols) by (nonlinear_arith);
    }

    /// Free and taken cells together are all the cells.
    pub proof fn lemma_free_and_taken(self, body: Seq<CellView>, from: int)
        requires
            0 <= from <= self.cells(),
        ensures
            self.free_from(body, from) + self.taken_from(body, from) == self.cells() - from,
        decreases self.cells() - from,
    {
        if from < self.cells() {
            self.lemma_free_and_taken(body, from + 1);
        }
    }

    /// A body without pieces takes no cell.
    pub proof fn lemma_empty_body_takes_nothing(self, from: int)
        ensures
            self.taken_from(Seq::<CellView>::empty(), from) == 0,
        decreases self.cells() - from,
    {
        if 0 <= from < self.cells() {
            self.lemma_empty_body_takes_nothing(from + 1);
        }
    }

    /// One more piece takes at most one more cell.
    pub proof fn lemma_one_piece_takes_one_cell(
        self,
        body: Seq<CellView>,
        piece: CellView,
        from: int,
    )
        requires
            0 <= from,
        ensures
            self.taken_from(body.push(piece), from) <= self.taken_from(body, from) + 1,
            (forall|i: int| from <= i < self.cells() ==> self.cell_at(i) != piece)
                ==> self.taken_from(body.push(piece), from) == self.taken_from(body, from),
        decreases self.cells() - from,
    {
        if from < self.cells() {
            let here = self.cell_at(from);
            assert(body.push(piece).contains(here) <==> body.contains(here) || here == piece) by {
                if body.contains(here) {
                    let j = choose|j: int| 0 <= j < body.len() && body[j] == here;
                    assert(body.push(piece)[j] == here);
                }
                if here == piece {
                    assert(body.push(piece)[body.len() as int] == here);
                }
            }
            self.lemma_one_piece_takes_one_cell(body, piece, from + 1);
            if here == piece {
                assert forall|i: int| from + 1 <= i < self.cells() implies self.cell_at(i)
                    != piece by {
                    self.lemma_cell_at_on_board(i);
                    self.lemma_cell_at_on_board(from);
                }
            }
        }
    }

    /// A body takes at most as many cells as it has pieces.
    pub proof fn lemma_taken_at_most_len(self, body: Seq<CellView>)
        ensures
            self.taken_from(body, 0) <= body.len(),
        decreases body.len(),
    {
        if body.len() == 0 {
            assert(body =~= Seq::<CellView>::empty());
            self.lemma_empty_body_takes_nothing(0);
        } else {
            let rest = body.drop_last();
            self.lemma_taken_at_most_len(rest);
            assert(rest.push(body.last()) =~= body);
            self.lemma_one_piece_takes_one_cell(rest, body.last(), 0);
        }
    }

    /// A body with fewer pieces than the board has cells leaves a cell free.
    pub proof fn lemma_short_body_leaves_room(self, body: Seq<CellView>)
        requires
            body.len() < self.cells(),
        ensures
            self.free_cells(body) >= self.cells() - body.len() > 0,
    {
        self.lemma_taken_at_most_len(body);
        self.lemma_free_and_taken(body, 0);
    }

    /// Bodies that cover the same cells leave the same cells free.
    pub proof fn lemma_free_depends_on_cover(self, a: Seq<CellView>, b: Seq<CellView>, from: int)
        requires
            forall|cell: CellView| a.contains(cell) == b.contains(cell),
        ensures
            self.free_from(a, from) == self.free_from(b, from),
        decreases self.cells() - from,
    {
        if 0 <= from < self.cells() {
            self.lemma_free_depends_on_cover(a, b, from + 1);
        }
    }

    /// Bodies that cover the same cells have their free cells in the same
    /// places.
    pub proof fn lemma_nth_free_depends_on_cover(
        self,
        a: Seq<CellView>,
        b: Seq<CellView>,
        skip: nat,
        from: int,
    )
        requires
            forall|cell: CellView| a.contains(cell) == b.contains(cell),
        ensures
            self.nth_free_from(a, skip, from) == self.nth_free_from(b, skip, from),
        decreases self.cells() - from,
    {
        if 0 <= from < self.cells() {
            if !self.is_free(a, from) || skip == 0 {
                self.lemma_nth_free_depends_on_cover(a, b, skip, from + 1);
            } else {
                self.lemma_nth_free_depends_on_cover(a, b, (skip - 1) as nat, from + 1);
            }
        }
    }

    /// If more than `skip` cells numbered `from` or higher are free, the
    /// search finds a free cell with exactly `skip` free cells between `from`
    /// and itself.
    pub proof fn lemma_nth_free_from(self, body: Seq<CellView>, skip: nat, from: int)
        requires
            0 <= from,
            skip < self.free_from(body, from),
        ensures
            from <= self.nth_free_from(body, skip, from) < self.cells(),
            self.is_free(body, self.nth_free_from(body, skip, from)),
            self.free_from(body, from) - self.free_from(body, self.nth_free_from(body, skip, from))
                == skip,
        decreases self.cells() - from,
    {
        if from < self.cells() {
            if !self.is_free(body, from) {
                self.lemma_nth_free_from(body, skip, from + 1);
            } else if skip > 0 {
                self.lemma_nth_free_from(body, (skip - 1) as nat, from + 1);
            }
        }
    }

    /// From a higher number on, no more cells are free than from a lower one,
    /// and a free cell in between makes the difference strict.
    pub proof fn lemma_free_from_falls(self, body: Seq<CellView>, low: int, high: int)
        requires
            0 <= low <= high,
        ensures
            self.free_from(body, low) >= self.free_from(body, high),
            low < high <= self.cells() && self.is_free(body, low) ==> self.free_from(body, low)
                > self.free_from(body, high),
        decreases high - low,
    {
        if low < high {
            self.lemma_free_from_falls(body, low + 1, high);
        }
    }

    /// A later pick finds a later cell: no two picks lay food on the same
    /// cell.
    pub proof fn lemma_picks_differ(self, body: Seq<CellView>, first: nat, second: nat)
        requires
            first < second < self.free_cells(body),
        ensures
            self.nth_free_from(body, first, 0) < self.nth_free_from(body, second, 0),
    {
        let a = self.nth_free_from(body, first, 0);
        let b = self.nth_free_from(body, second, 0);
        self.lemma_nth_free_from(body, first, 0);
        self.lemma_nth_free_from(body, second, 0);
        if b <= a {
            self.lemma_free_from_falls(body, b, a);
        }
    }

    /// Every free cell of the board is found by some pick: the number of free
    /// cells before it.
    pub proof fn lemma_every_free_cell_is_picked(self, body: Seq<CellView>, index: int)
        requires
            0 <= index < self.cells(),
            self.is_free(body, index),
        ensures
            0 <= self.free_cells(body) - self.free_from(body, index) < self.free_cells(body),
            self.nth_free_from(
                body,
                (self.free_cells(body) - self.free_from(body, index)) as nat,
                0,
            ) == index,
    {
        self.lemma_free_from_falls(body, 0, index);
        let skip = (self.free_cells(body) - self.free_from(body, index)) as nat;
        self.lemma_nth_free_from(body, skip, 0);
        let found = self.nth_free_from(body, skip, 0);
        if found < index {
            self.lemma_free_from_falls(body, found, index);
        } else if index < found {
            self.lemma_free_from_falls(body, index, found);
        }
    }

    /// Every cell of the board that is off the body is found by some pick.
    pub proof fn lemma_every_free_cell_has_a_pick(self, body: Seq<CellView>, cell: CellView)
        requires
            self.contains(cell),
            !body.contains(cell),
        ensures
            exists|pick: nat|
                #![trigger self.nth_free(body, pick)]
                pick < self.free_cells(body) && self.nth_free(body, pick) == cell,
    {
        let index = self.index_of(cell);
        self.lemma_index_of_on_board(cell);
        self.lemma_every_free_cell_is_picked(body, index);
        let pick = (self.free_cells(body) - self.free_from(body, index)) as nat;
        assert(pick < self.free_cells(body) && self.nth_free(body, pick) == cell);
    }

    /// The cell that the search finds lies on the board and off the body.
    pub proof fn lemma_nth_free(self, body: Seq<CellView>, skip: nat)
        requires
            skip < self.free_cells(body),
        ensures
            self.contains(self.nth_free(body, skip)),
            !body.contains(self.nth_free(body, skip)),
    {
        self.lemma_nth_free_from(body, skip, 0);
        self.lemma_cell_at_on_board(self.nth_free_from(body, skip, 0));
    }
}

} // verus!
