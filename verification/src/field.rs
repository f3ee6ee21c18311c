//! A rectangular grid of cells, addressed by row and column.

use vstd::prelude::*;

verus! {

/// A grid of `height` rows by `width` columns. Its shape is fixed when it is
/// made. The cells are kept row after row in one vector.
pub struct Field<T> {
    height: usize,
    width: usize,
    cells: Vec<T>,
}

/// `grid` has `height` rows, each of `width` cells.
pub open spec fn is_grid<T>(grid: Seq<Seq<T>>, height: nat, width: nat) -> bool {
    &&& grid.len() == height
    &&& forall|i: int| 0 <= i < height ==> (#[trigger] grid[i]).len() == width
}

/// The cell in row `i` and column `j` of a grid of `width` columns lies
/// inside a vector of `height * width` cells.
proof fn lemma_cell_index_in_bounds(height: int, width: int, i: int, j: int)
    requires
        0 <= i < height,
        0 <= j < width,
    ensures
        0 <= i * width,
        i * width + j < height * width,
{
    assert(i * width >= 0) by (nonlinear_arith)
        requires
            0 <= i,
            0 <= width,
    ;
    assert((i + 1) * width <= height * width) by (nonlinear_arith)
        requires
            i + 1 <= height,
            0 <= width,
    ;
    assert((i + 1) * width == i * width + width) by (nonlinear_arith);
}

/// Two different cells of a grid never share a place in the vector.
proof fn lemma_cell_index_is_injective(width: int, i: int, j: int, k: int, l: int)
    requires
        0 <= j < width,
        0 <= l < width,
        0 <= i,
        0 <= k,
        i * width + j == k * width + l,
    ensures
        i == k,
        j == l,
{
    if i < k {
        assert((i + 1) * width <= k * width) by (nonlinear_arith)
            requires
                i + 1 <= k,
                0 <= width,
        ;
        assert((i + 1) * width == i * width + width) by (nonlinear_arith);
    } else if k < i {
        assert((k + 1) * width <= i * width) by (nonlinear_arith)
            requires
                k + 1 <= i,
                0 <= width,
        ;
        assert((k + 1) * width == k * width + width) by (nonlinear_arith);
    }
}

impl<T> View for Field<T> {
    type V = Seq<Seq<T>>;

    /// The rows of the grid, top row first, each from its left end.
    closed spec fn view(&self) -> Seq<Seq<T>> {
        Seq::new(
            self.height as nat,
            |i: int| Seq::new(self.width as nat, |j: int| self.cells@[i * self.width + j]),
        )
    }
}

impl<T> Field<T> {
    /// The vector holds exactly the cells of the grid. Every constructor
    /// establishes this and every method keeps it.
    pub closed spec fn wf(self) -> bool {
        self.cells@.len() == self.height * self.width
    }

    /// The number of rows.
    pub closed spec fn spec_height(self) -> nat {
        self.height as nat
    }

    /// The number of columns.
    pub closed spec fn spec_width(self) -> nat {
        self.width as nat
    }

    /// The view of a field is a grid of the field's own shape.
    pub proof fn lemma_view_is_grid(self)
        ensures
            is_grid(self@, self.spec_height(), self.spec_width()),
    {
    }

    /// The number of rows.
    pub fn height(&self) -> (h: usize)
        ensures
            h == self.spec_height(),
            is_grid(self@, self.spec_height(), self.spec_width()),
    {
        self.height
    }

    /// The number of columns.
    pub fn width(&self) -> (w: usize)
        ensures
            w == self.spec_width(),
            is_grid(self@, self.spec_height(), self.spec_width()),
    {
        self.width
    }

    /// Whether `other` has as many rows and as many columns as `self`.
    pub fn same_shape<U>(&self, other: &Field<U>) -> (same: bool)
        ensures
            same <==> self.spec_height() == other.spec_height() && self.spec_width()
                == other.spec_width(),
    {
        self.height == other.height && self.width == other.width
    }
}

impl<T: Copy> Field<T> {
    /// A field of `height` rows by `width` columns with `value` in every
    /// cell, or `None` when the number of cells does not fit in `usize`.
    pub fn filled(height: usize, width: usize, value: T) -> (made: Option<Field<T>>)
        ensures
            made is Some <==> height * width <= usize::MAX,
            made matches Some(field) ==> {
                &&& field.wf()
                &&& field.spec_height() == height
                &&& field.spec_width() == width
                &&& is_grid(field@, height as nat, width as nat)
                &&& forall|i: int, j: int|
                    0 <= i < height && 0 <= j < width ==> (#[trigger] field@[i][j]) == value
            },
    {
        let count = match height.checked_mul(width) {
            Some(count) => count,
            None => {
                return None;
            },
        };
        let mut cells: Vec<T> = Vec::new();
        while cells.len() < count
            invariant
                cells@.len() <= count,
                forall|k: int| 0 <= k < cells@.len() ==> cells@[k] == value,
            decreases count - cells@.len(),
        {
            cells.push(value);
        }
        let field = Field { height, width, cells };
        proof {
            assert forall|i: int, j: int| 0 <= i < height && 0 <= j < width implies (
            #[trigger] field@[i][j]) == value by {
                lemma_cell_index_in_bounds(height as int, width as int, i, j);
            }
        }
        Some(field)
    }

    /// The cell in row `row` and column `col`.
    pub fn cell(&self, row: usize, col: usize) -> (value: T)
        requires
            self.wf(),
            row < self.spec_height(),
            col < self.spec_width(),
        ensures
            value == self@[row as int][col as int],
    {
        proof {
            lemma_cell_index_in_bounds(
                self.height as int,
                self.width as int,
                row as int,
                col as int,
            );
        }
        let count = self.cells.len();
        assert(row * self.width + col < count);
        self.cells[row * self.width + col]
    }

    /// The cell in row `row` and column `col`, or `None` when the field has
    /// no such cell.
    pub fn get(&self, row: usize, col: usize) -> (value: Option<T>)
        requires
            self.wf(),
        ensures
            value is Some <==> row < self.spec_height() && col < self.spec_width(),
            value matches Some(v) ==> v == self@[row as int][col as int],
    {
        if row < self.height && col < self.width {
            Some(self.cell(row, col))
        } else {
            None
        }
    }

    /// Puts `value` into the cell in row `row` and column `col` and leaves
    /// every other cell as it was.
    pub fn put(&mut self, row: usize, col: usize, value: T)
        requires
            old(self).wf(),
            row < old(self).spec_height(),
            col < old(self).spec_width(),
        ensures
            final(self).wf(),
            final(self).spec_height() == old(self).spec_height(),
            final(self).spec_width() == old(self).spec_width(),
            final(self)@ == old(self)@.update(
                row as int,
                old(self)@[row as int].update(col as int, value),
            ),
    {
        proof {
            lemma_cell_index_in_bounds(
                self.height as int,
                self.width as int,
                row as int,
                col as int,
            );
        }
        let count = self.cells.len();
        assert(row * self.width + col < count);
        let k = row * self.width + col;
        self.cells.set(k, value);
        proof {
            let before = old(self)@;
            let after = self@;
            let expected = before.update(row as int, before[row as int].update(col as int, value));
            assert forall|i: int| 0 <= i < after.len() implies #[trigger] after[i]
                == expected[i] by {
                assert forall|j: int| 0 <= j < after[i].len() implies #[trigger] after[i][j]
                    == expected[i][j] by {
                    lemma_cell_index_in_bounds(self.height as int, self.width as int, i, j);
                    if i * self.width + j == k {
                        lemma_cell_index_is_injective(
                            self.width as int,
                            i,
                            j,
                            row as int,
                            col as int,
                        );
                    }
                }
                assert(after[i] =~= expected[i]);
            }
            assert(after =~= expected);
        }
    }

    /// Puts `value` into the cell in row `row` and column `col`. Returns
    /// whether the field has such a cell; when it has none, nothing changes.
    pub fn set(&mut self, row: usize, col: usize, value: T) -> (done: bool)
        requires
            old(self).wf(),
        ensures
            final(self).wf(),
            final(self).spec_height() == old(self).spec_height(),
            final(self).spec_width() == old(self).spec_width(),
            done <==> row < old(self).spec_height() && col < old(self).spec_width(),
            done ==> final(self)@ == old(self)@.update(
                row as int,
                old(self)@[row as int].update(col as int, value),
            ),
            !done ==> final(self)@ == old(self)@,
    {
        if row < self.height && col < self.width {
            self.put(row, col, value);
            true
        } else {
            false
        }
    }
}

} // verus!
