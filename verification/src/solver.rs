//! One explicit time step of a five-point stencil over a field, with a
//! boundary source in place of every neighbour that lies outside the grid.
//!
//! The solver fixes which values a cell is computed from. How they are
//! combined, and what the boundary source gives, is the caller's arithmetic:
//! `boundary(x, y, step)` is the source at column `x` and row `y` at the time
//! of step `step`, and `combine` turns the five values of a stencil into the
//! cell's next value.

use vstd::prelude::*;
use crate::field::{Field, is_grid};

verus! {

/// The five values that the next value of a cell is computed from: the cell
/// itself and its neighbours along the row and along the column.
#[derive(Debug)]
pub struct Stencil<T> {
    pub center: T,
    pub left: T,
    pub right: T,
    pub top: T,
    pub bottom: T,
}

/// `value` is what the stencil of the cell in row `i` and column `j` holds
/// for the neighbour in row `ni` and column `nj`: the stored cell where the
/// grid has one there, and else what the boundary source gives at the cell's
/// own place at step `step`. No cell of the opposite edge is ever read.
pub open spec fn is_neighbor<T, B: Fn(usize, usize, u64) -> T>(
    old_grid: Seq<Seq<T>>,
    i: int,
    j: int,
    ni: int,
    nj: int,
    step: u64,
    boundary: B,
    value: T,
) -> bool {
    if 0 <= ni < old_grid.len() && 0 <= nj < old_grid[i].len() {
        value == old_grid[ni][nj]
    } else {
        boundary.ensures((j as usize, i as usize, step), value)
    }
}

/// `s` is a stencil of the cell in row `i` and column `j` of `old_grid` at
/// step `step`.
pub open spec fn is_stencil_of<T, B: Fn(usize, usize, u64) -> T>(
    old_grid: Seq<Seq<T>>,
    i: int,
    j: int,
    step: u64,
    boundary: B,
    s: Stencil<T>,
) -> bool {
    &&& s.center == old_grid[i][j]
    &&& is_neighbor(old_grid, i, j, i, j - 1, step, boundary, s.left)
    &&& is_neighbor(old_grid, i, j, i, j + 1, step, boundary, s.right)
    &&& is_neighbor(old_grid, i, j, i - 1, j, step, boundary, s.top)
    &&& is_neighbor(old_grid, i, j, i + 1, j, step, boundary, s.bottom)
}

/// `value` is a next value of the cell in row `i` and column `j`: what
/// `combine` gives for a stencil of that cell.
pub open spec fn is_next_value<T, B: Fn(usize, usize, u64) -> T, C: Fn(Stencil<T>) -> T>(
    old_grid: Seq<Seq<T>>,
    i: int,
    j: int,
    step: u64,
    boundary: B,
    combine: C,
    value: T,
) -> bool {
    exists|s: Stencil<T>| #[trigger]
        is_stencil_of(old_grid, i, j, step, boundary, s) && combine.ensures((s,), value)
}

/// `new_grid` is `old_grid` one time step later: it has the same shape, and
/// each of its cells is a next value of the cell at the same place.
pub open spec fn is_step<T, B: Fn(usize, usize, u64) -> T, C: Fn(Stencil<T>) -> T>(
    old_grid: Seq<Seq<T>>,
    new_grid: Seq<Seq<T>>,
    step: u64,
    boundary: B,
    combine: C,
) -> bool {
    &&& new_grid.len() == old_grid.len()
    &&& forall|i: int| 0 <= i < old_grid.len() ==> (#[trigger] new_grid[i]).len() == old_grid[i].len()
    &&& forall|i: int, j: int|
        0 <= i < old_grid.len() && 0 <= j < old_grid[i].len() ==> is_next_value(
            old_grid,
            i,
            j,
            step,
            boundary,
            combine,
            #[trigger] new_grid[i][j],
        )
}

/// A cell that touches no edge is computed from the cell itself and its four
/// stored neighbours alone: the boundary source has no part in it.
pub proof fn lemma_interior_cell_reads_stored_neighbors<
    T,
    B: Fn(usize, usize, u64) -> T,
    C: Fn(Stencil<T>) -> T,
>(
    old_grid: Seq<Seq<T>>,
    new_grid: Seq<Seq<T>>,
    height: nat,
    width: nat,
    i: int,
    j: int,
    step: u64,
    boundary: B,
    combine: C,
)
    requires
        is_grid(old_grid, height, width),
        is_step(old_grid, new_grid, step, boundary, combine),
        0 < i < height - 1,
        0 < j < width - 1,
    ensures
        combine.ensures(
            (
                Stencil {
                    center: old_grid[i][j],
                    left: old_grid[i][j - 1],
                    right: old_grid[i][j + 1],
                    top: old_grid[i - 1][j],
                    bottom: old_grid[i + 1][j],
                },
            ),
            new_grid[i][j],
        ),
{
    let value = new_grid[i][j];
    assert(is_next_value(old_grid, i, j, step, boundary, combine, value));
    let s = choose|s: Stencil<T>| #[trigger]
        is_stencil_of(old_grid, i, j, step, boundary, s) && combine.ensures((s,), value);
    let stored = Stencil {
        center: old_grid[i][j],
        left: old_grid[i][j - 1],
        right: old_grid[i][j + 1],
        top: old_grid[i - 1][j],
        bottom: old_grid[i + 1][j],
    };
    assert(s == stored);
}

/// Every cell is computed from a stencil in which each neighbour that the
/// grid has is the stored one, and each neighbour beyond an edge is what the
/// boundary source gives at the cell's own column and row at the time of the
/// step. A cell on an edge therefore reads the source at least once, and
/// never a cell of the opposite edge.
pub proof fn lemma_edge_cell_reads_boundary<
    T,
    B: Fn(usize, usize, u64) -> T,
    C: Fn(Stencil<T>) -> T,
>(
    old_grid: Seq<Seq<T>>,
    new_grid: Seq<Seq<T>>,
    height: nat,
    width: nat,
    i: int,
    j: int,
    step: u64,
    boundary: B,
    combine: C,
)
    requires
        is_grid(old_grid, height, width),
        is_step(old_grid, new_grid, step, boundary, combine),
        0 <= i < height,
        0 <= j < width,
    ensures
        exists|s: Stencil<T>|
            {
                &&& #[trigger] combine.ensures((s,), new_grid[i][j])
                &&& s.center == old_grid[i][j]
                &&& if j == 0 {
                    boundary.ensures((j as usize, i as usize, step), s.left)
                } else {
                    s.left == old_grid[i][j - 1]
                }
                &&& if j == width - 1 {
                    boundary.ensures((j as usize, i as usize, step), s.right)
                } else {
                    s.right == old_grid[i][j + 1]
                }
                &&& if i == 0 {
                    boundary.ensures((j as usize, i as usize, step), s.top)
                } else {
                    s.top == old_grid[i - 1][j]
                }
                &&& if i == height - 1 {
                    boundary.ensures((j as usize, i as usize, step), s.bottom)
                } else {
                    s.bottom == old_grid[i + 1][j]
                }
            },
{
    let value = new_grid[i][j];
    assert(is_next_value(old_grid, i, j, step, boundary, combine, value));
    let s = choose|s: Stencil<T>| #[trigger]
        is_stencil_of(old_grid, i, j, step, boundary, s) && combine.ensures((s,), value);
    assert(combine.ensures((s,), new_grid[i][j]));
}

/// The boundary source gives one value for one place and step, as a pure
/// function does.
pub open spec fn source_is_function<T, B: Fn(usize, usize, u64) -> T>(boundary: B) -> bool {
    forall|x: usize, y: usize, step: u64, a: T, b: T|
        #[trigger] boundary.ensures((x, y, step), a) && #[trigger] boundary.ensures(
            (x, y, step),
            b,
        ) ==> a == b
}

/// `combine` gives one value for one stencil, as a pure function does.
pub open spec fn combine_is_function<T, C: Fn(Stencil<T>) -> T>(combine: C) -> bool {
    forall|s: Stencil<T>, a: T, b: T|
        #[trigger] combine.ensures((s,), a) && #[trigger] combine.ensures((s,), b) ==> a == b
}

/// The next value of a cell that touches no edge does not depend on the
/// step number, nor on the boundary source: with a `combine` that is a
/// function, two steps of one field agree on it, whatever their step numbers
/// and sources are.
pub proof fn lemma_interior_cell_ignores_step_and_source<
    T,
    B1: Fn(usize, usize, u64) -> T,
    B2: Fn(usize, usize, u64) -> T,
    C: Fn(Stencil<T>) -> T,
>(
    old_grid: Seq<Seq<T>>,
    first: Seq<Seq<T>>,
    second: Seq<Seq<T>>,
    height: nat,
    width: nat,
    i: int,
    j: int,
    first_step: u64,
    second_step: u64,
    first_boundary: B1,
    second_boundary: B2,
    combine: C,
)
    requires
        is_grid(old_grid, height, width),
        is_step(old_grid, first, first_step, first_boundary, combine),
        is_step(old_grid, second, second_step, second_boundary, combine),
        combine_is_function(combine),
        0 < i < height - 1,
        0 < j < width - 1,
    ensures
        first[i][j] == second[i][j],
{
    lemma_interior_cell_reads_stored_neighbors(
        old_grid,
        first,
        height,
        width,
        i,
        j,
        first_step,
        first_boundary,
        combine,
    );
    lemma_interior_cell_reads_stored_neighbors(
        old_grid,
        second,
        height,
        width,
        i,
        j,
        second_step,
        second_boundary,
        combine,
    );
}

/// The next value of a cell depends on the cell, on its neighbours inside
/// the grid and on the boundary source at its own place, and on nothing
/// else: with closures that are functions, two fields of one shape that
/// agree at a cell and at each neighbour that the grid has give the same
/// next value there, whatever any other cell holds, those of the opposite
/// edge included.
pub proof fn lemma_cell_depends_on_its_stencil_only<
    T,
    B: Fn(usize, usize, u64) -> T,
    C: Fn(Stencil<T>) -> T,
>(
    first_old: Seq<Seq<T>>,
    second_old: Seq<Seq<T>>,
    first_new: Seq<Seq<T>>,
    second_new: Seq<Seq<T>>,
    height: nat,
    width: nat,
    i: int,
    j: int,
    step: u64,
    boundary: B,
    combine: C,
)
    requires
        is_grid(first_old, height, width),
        is_grid(second_old, height, width),
        is_step(first_old, first_new, step, boundary, combine),
        is_step(second_old, second_new, step, boundary, combine),
        source_is_function(boundary),
        combine_is_function(combine),
        0 <= i < height,
        0 <= j < width,
        first_old[i][j] == second_old[i][j],
        j > 0 ==> first_old[i][j - 1] == second_old[i][j - 1],
        j + 1 < width ==> first_old[i][j + 1] == second_old[i][j + 1],
        i > 0 ==> first_old[i - 1][j] == second_old[i - 1][j],
        i + 1 < height ==> first_old[i + 1][j] == second_old[i + 1][j],
    ensures
        first_new[i][j] == second_new[i][j],
{
    let a = first_new[i][j];
    let b = second_new[i][j];
    assert(is_next_value(first_old, i, j, step, boundary, combine, a));
    assert(is_next_value(second_old, i, j, step, boundary, combine, b));
    let s = choose|s: Stencil<T>| #[trigger]
        is_stencil_of(first_old, i, j, step, boundary, s) && combine.ensures((s,), a);
    let t = choose|t: Stencil<T>| #[trigger]
        is_stencil_of(second_old, i, j, step, boundary, t) && combine.ensures((t,), b);
    assert(is_neighbor(first_old, i, j, i, j - 1, step, boundary, s.left));
    assert(is_neighbor(second_old, i, j, i, j - 1, step, boundary, t.left));
    assert(is_neighbor(first_old, i, j, i, j + 1, step, boundary, s.right));
    assert(is_neighbor(second_old, i, j, i, j + 1, step, boundary, t.right));
    assert(is_neighbor(first_old, i, j, i - 1, j, step, boundary, s.top));
    assert(is_neighbor(second_old, i, j, i - 1, j, step, boundary, t.top));
    assert(is_neighbor(first_old, i, j, i + 1, j, step, boundary, s.bottom));
    assert(is_neighbor(second_old, i, j, i + 1, j, step, boundary, t.bottom));
    assert(s.left == t.left);
    assert(s.right == t.right);
    assert(s.top == t.top);
    assert(s.bottom == t.bottom);
    assert(s == t);
}

/// Every cell of `grid` is inside the bound.
pub open spec fn is_within<T>(grid: Seq<Seq<T>>, inside: spec_fn(T) -> bool) -> bool {
    forall|i: int, j: int|
        0 <= i < grid.len() && 0 <= j < grid[i].len() ==> inside(#[trigger] grid[i][j])
}

/// The boundary source gives only values inside the bound.
pub open spec fn source_is_within<T, B: Fn(usize, usize, u64) -> T>(
    boundary: B,
    inside: spec_fn(T) -> bool,
) -> bool {
    forall|x: usize, y: usize, step: u64, value: T|
        #[trigger] boundary.ensures((x, y, step), value) ==> inside(value)
}

/// From five values inside the bound `combine` makes a value inside it.
pub open spec fn combine_keeps_within<T, C: Fn(Stencil<T>) -> T>(
    combine: C,
    inside: spec_fn(T) -> bool,
) -> bool {
    forall|s: Stencil<T>, value: T|
        inside(s.center) && inside(s.left) && inside(s.right) && inside(s.top) && inside(s.bottom)
            && #[trigger] combine.ensures((s,), value) ==> inside(value)
}

/// A bound that the boundary source respects and that one application of
/// `combine` keeps is kept by a whole step: where every cell was inside it,
/// every cell still is.
pub proof fn lemma_step_keeps_bound<T, B: Fn(usize, usize, u64) -> T, C: Fn(Stencil<T>) -> T>(
    old_grid: Seq<Seq<T>>,
    new_grid: Seq<Seq<T>>,
    height: nat,
    width: nat,
    step: u64,
    boundary: B,
    combine: C,
    inside: spec_fn(T) -> bool,
)
    requires
        is_grid(old_grid, height, width),
        is_step(old_grid, new_grid, step, boundary, combine),
        is_within(old_grid, inside),
        source_is_within(boundary, inside),
        combine_keeps_within(combine, inside),
    ensures
        is_grid(new_grid, height, width),
        is_within(new_grid, inside),
{
    assert forall|i: int, j: int|
        0 <= i < new_grid.len() && 0 <= j < new_grid[i].len() implies inside(
        #[trigger] new_grid[i][j],
    ) by {
        let value = new_grid[i][j];
        assert(is_next_value(old_grid, i, j, step, boundary, combine, value));
        let s = choose|s: Stencil<T>| #[trigger]
            is_stencil_of(old_grid, i, j, step, boundary, s) && combine.ensures((s,), value);
        assert(inside(old_grid[i][j]));
        assert(is_neighbor(old_grid, i, j, i, j - 1, step, boundary, s.left));
        assert(is_neighbor(old_grid, i, j, i, j + 1, step, boundary, s.right));
        assert(is_neighbor(old_grid, i, j, i - 1, j, step, boundary, s.top));
        assert(is_neighbor(old_grid, i, j, i + 1, j, step, boundary, s.bottom));
        if j > 0 {
            assert(inside(old_grid[i][j - 1]));
        }
        if j + 1 < width {
            assert(inside(old_grid[i][j + 1]));
        }
        if i > 0 {
            assert(inside(old_grid[i - 1][j]));
        }
        if i + 1 < height {
            assert(inside(old_grid[i + 1][j]));
        }
    }
}

/// Gathers the stencil of the cell in row `row` and column `col`. The
/// boundary source is asked once for each neighbour that the grid lacks.
pub fn stencil_at<T: Copy, B: Fn(usize, usize, u64) -> T>(
    field: &Field<T>,
    row: usize,
    col: usize,
    step: u64,
    boundary: &B,
) -> (s: Stencil<T>)
    requires
        field.wf(),
        row < field.spec_height(),
        col < field.spec_width(),
        boundary.requires((col, row, step)),
    ensures
        is_stencil_of(field@, row as int, col as int, step, *boundary, s),
{
    let height = field.height();
    let width = field.width();
    let center = field.cell(row, col);
    let left = if col > 0 {
        field.cell(row, col - 1)
    } else {
        boundary(col, row, step)
    };
    let right = if col < width - 1 {
        field.cell(row, col + 1)
    } else {
        boundary(col, row, step)
    };
    let top = if row > 0 {
        field.cell(row - 1, col)
    } else {
        boundary(col, row, step)
    };
    let bottom = if row < height - 1 {
        field.cell(row + 1, col)
    } else {
        boundary(col, row, step)
    };
    Stencil { center, left, right, top, bottom }
}

/// Computes the field one time step after `old_field` into `new_field`.
/// Every cell of `new_field` is overwritten; `old_field` is only read.
pub fn advance<T: Copy, B: Fn(usize, usize, u64) -> T, C: Fn(Stencil<T>) -> T>(
    old_field: &Field<T>,
    new_field: &mut Field<T>,
    step: u64,
    boundary: &B,
    combine: &C,
)
    requires
        old_field.wf(),
        old(new_field).wf(),
        old(new_field).spec_height() == old_field.spec_height(),
        old(new_field).spec_width() == old_field.spec_width(),
        forall|x: usize, y: usize|
            x < old_field.spec_width() && y < old_field.spec_height() ==> boundary.requires(
                (x, y, step),
            ),
        forall|s: Stencil<T>| combine.requires((s,)),
    ensures
        final(new_field).wf(),
        final(new_field).spec_height() == old_field.spec_height(),
        final(new_field).spec_width() == old_field.spec_width(),
        is_step(old_field@, final(new_field)@, step, *boundary, *combine),
{
    let height = old_field.height();
    let width = old_field.width();
    proof {
        new_field.lemma_view_is_grid();
    }
    let mut i: usize = 0;
    while i < height
        invariant
            i <= height,
            height == old_field.spec_height(),
            width == old_field.spec_width(),
            old_field.wf(),
            new_field.wf(),
            new_field.spec_height() == height,
            new_field.spec_width() == width,
            is_grid(old_field@, height as nat, width as nat),
            is_grid(new_field@, height as nat, width as nat),
            forall|x: usize, y: usize| x < width && y < height ==> boundary.requires((x, y, step)),
            forall|s: Stencil<T>| combine.requires((s,)),
            forall|r: int, c: int|
                0 <= r < i && 0 <= c < width ==> is_next_value(
                    old_field@,
                    r,
                    c,
                    step,
                    *boundary,
                    *combine,
                    #[trigger] new_field@[r][c],
                ),
        decreases height - i,
    {
        let mut j: usize = 0;
        while j < width
            invariant
                i < height,
                j <= width,
                height == old_field.spec_height(),
                width == old_field.spec_width(),
                old_field.wf(),
                new_field.wf(),
                new_field.spec_height() == height,
                new_field.spec_width() == width,
                is_grid(old_field@, height as nat, width as nat),
                is_grid(new_field@, height as nat, width as nat),
                forall|x: usize, y: usize|
                    x < width && y < height ==> boundary.requires((x, y, step)),
                forall|s: Stencil<T>| combine.requires((s,)),
                forall|r: int, c: int|
                    (0 <= r < i && 0 <= c < width) || (r == i && 0 <= c < j) ==> is_next_value(
                        old_field@,
                        r,
                        c,
                        step,
                        *boundary,
                        *combine,
                        #[trigger] new_field@[r][c],
                    ),
            decreases width - j,
        {
            let s = stencil_at(old_field, i, j, step, boundary);
            let value = combine(s);
            new_field.put(i, j, value);
            proof {
                new_field.lemma_view_is_grid();
            }
            j += 1;
        }
        i += 1;
    }
}

/// Every cell of `grid` is what the boundary source gives at the cell's own
/// column and row at step `step`.
pub open spec fn is_sampling<T, B: Fn(usize, usize, u64) -> T>(
    grid: Seq<Seq<T>>,
    height: nat,
    width: nat,
    step: u64,
    boundary: B,
) -> bool {
    &&& is_grid(grid, height, width)
    &&& forall|i: int, j: int|
        0 <= i < height && 0 <= j < width ==> boundary.ensures(
            (j as usize, i as usize, step),
            #[trigger] grid[i][j],
        )
}

/// Overwrites the whole field with the boundary source at step `step`,
/// taking no stencil at all: the field that the source alone describes, to
/// start a simulation from or to hold a stepped field against.
pub fn recompute<T: Copy, B: Fn(usize, usize, u64) -> T>(
    field: &mut Field<T>,
    step: u64,
    boundary: &B,
)
    requires
        old(field).wf(),
        forall|x: usize, y: usize|
            x < old(field).spec_width() && y < old(field).spec_height() ==> boundary.requires(
                (x, y, step),
            ),
    ensures
        final(field).wf(),
        final(field).spec_height() == old(field).spec_height(),
        final(field).spec_width() == old(field).spec_width(),
        is_sampling(
            final(field)@,
            old(field).spec_height(),
            old(field).spec_width(),
            step,
            *boundary,
        ),
{
    let height = field.height();
    let width = field.width();
    let mut i: usize = 0;
    while i < height
        invariant
            i <= height,
            field.wf(),
            height == old(field).spec_height(),
            width == old(field).spec_width(),
            field.spec_height() == height,
            field.spec_width() == width,
            is_grid(field@, height as nat, width as nat),
            forall|x: usize, y: usize| x < width && y < height ==> boundary.requires((x, y, step)),
            forall|r: int, c: int|
                0 <= r < i && 0 <= c < width ==> boundary.ensures(
                    (c as usize, r as usize, step),
                    #[trigger] field@[r][c],
                ),
        decreases height - i,
    {
        let mut j: usize = 0;
        while j < width
            invariant
                i < height,
                j <= width,
                field.wf(),
                height == old(field).spec_height(),
                width == old(field).spec_width(),
                field.spec_height() == height,
                field.spec_width() == width,
                is_grid(field@, height as nat, width as nat),
                forall|x: usize, y: usize|
                    x < width && y < height ==> boundary.requires((x, y, step)),
                forall|r: int, c: int|
                    (0 <= r < i && 0 <= c < width) || (r == i && 0 <= c < j) ==> boundary.ensures(
                        (c as usize, r as usize, step),
                        #[trigger] field@[r][c],
                    ),
            decreases width - j,
        {
            let value = boundary(j, i, step);
            field.put(i, j, value);
            proof {
                field.lemma_view_is_grid();
            }
            j += 1;
        }
        i += 1;
    }
}

} // verus!
