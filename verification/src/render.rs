//! Painting a field into a frame: one opaque pixel for each cell, the pixel
//! of the cell in row `i` and column `j` standing in the four bytes from
//! place `4 * (i * width + j)` on.

use vstd::prelude::*;
use crate::color::Rgb;
use crate::error::GridError;
use crate::field::{Field, is_grid};
use crate::frame::{Frame, frame_bytes, frame_height, frame_width};

verus! {

/// A frame of the given width and height with `len` bytes takes a field of
/// `height` rows by `width` columns.
pub open spec fn frame_fits(
    height: nat,
    width: nat,
    frame_height: nat,
    frame_width: nat,
    len: nat,
) -> bool {
    &&& frame_height == height
    &&& frame_width == width
    &&& 4 * height * width <= len
}

/// The four bytes from `4 * (i * width + j)` on are an opaque pixel whose
/// colour is what `to_color` gives for the cell in row `i` and column `j`.
pub open spec fn is_pixel_of<T, F: Fn(T) -> Rgb>(
    grid: Seq<Seq<T>>,
    width: nat,
    to_color: F,
    bytes: Seq<u8>,
    i: int,
    j: int,
) -> bool {
    let at = 4 * (i * width + j);
    &&& to_color.ensures(
        (grid[i][j],),
        Rgb { r: bytes[at], g: bytes[at + 1], b: bytes[at + 2] },
    )
    &&& bytes[at + 3] == 255
}

/// `after` is `before` with the grid painted into it: every cell has its
/// pixel, and what lies behind the last pixel is as it was.
pub open spec fn is_painting<T, F: Fn(T) -> Rgb>(
    grid: Seq<Seq<T>>,
    height: nat,
    width: nat,
    to_color: F,
    before: Seq<u8>,
    after: Seq<u8>,
) -> bool {
    &&& after.len() == before.len()
    &&& forall|i: int, j: int|
        0 <= i < height && 0 <= j < width ==> #[trigger] is_pixel_of(
            grid,
            width,
            to_color,
            after,
            i,
            j,
        )
    &&& forall|k: int| 4 * height * width <= k < before.len() ==> #[trigger] after[k] == before[k]
}

/// `to_color` gives one colour for one value, as a pure function does.
pub open spec fn is_deterministic<T, F: Fn(T) -> Rgb>(to_color: F) -> bool {
    forall|value: T, a: Rgb, b: Rgb|
        #[trigger] to_color.ensures((value,), a) && #[trigger] to_color.ensures((value,), b) ==> a
            == b
}

/// In a grid of `width` columns, a cell that comes before another one, row
/// by row, has the smaller index.
proof fn lemma_cells_in_order(width: int, r: int, c: int, i: int, j: int)
    requires
        0 <= c < width,
        0 <= j <= width,
        0 <= r,
        r < i || (r == i && c < j),
    ensures
        0 <= r * width + c < i * width + j,
{
    assert(r * width >= 0) by (nonlinear_arith)
        requires
            r >= 0,
            width >= 0,
    ;
    if r < i {
        assert((r + 1) * width <= i * width) by (nonlinear_arith)
            requires
                r + 1 <= i,
                0 <= width,
        ;
        assert((r + 1) * width == r * width + width) by (nonlinear_arith);
    }
}

/// The last cell of a grid ends where the grid ends.
proof fn lemma_cell_before_end(height: int, width: int, i: int, j: int)
    requires
        0 <= i < height,
        0 <= j < width,
    ensures
        0 <= i * width + j < height * width,
        4 * height * width == 4 * (height * width),
{
    lemma_cells_in_order(width, i, j, height, 0);
    assert(4 * height * width == 4 * (height * width)) by (nonlinear_arith);
}

/// Two buffers in which every cell of one grid has its pixel hold the same
/// byte at every place of a pixel, where the colour map is a function.
proof fn lemma_pixels_agree<T, F: Fn(T) -> Rgb>(
    grid: Seq<Seq<T>>,
    height: nat,
    width: nat,
    to_color: F,
    first: Seq<u8>,
    second: Seq<u8>,
    k: int,
)
    requires
        is_deterministic(to_color),
        forall|i: int, j: int|
            0 <= i < height && 0 <= j < width ==> #[trigger] is_pixel_of(
                grid,
                width,
                to_color,
                first,
                i,
                j,
            ),
        forall|i: int, j: int|
            0 <= i < height && 0 <= j < width ==> #[trigger] is_pixel_of(
                grid,
                width,
                to_color,
                second,
                i,
                j,
            ),
        0 <= k < 4 * height * width,
    ensures
        first[k] == second[k],
{
    assert(4 * height * width == 4 * (height * width)) by (nonlinear_arith);
    let cell = k / 4;
    assert(width > 0) by (nonlinear_arith)
        requires
            0 <= cell < height * width,
    ;
    let i = cell / (width as int);
    let j = cell % (width as int);
    vstd::arithmetic::div_mod::lemma_fundamental_div_mod(cell, width as int);
    vstd::arithmetic::div_mod::lemma_div_pos_is_pos(cell, width as int);
    assert(i < height) by (nonlinear_arith)
        requires
            cell == width * i + j,
            cell < height * width,
            0 <= j,
            0 < width,
    ;
    assert(i * width + j == cell) by (nonlinear_arith)
        requires
            cell == width * i + j,
    ;
    assert(is_pixel_of(grid, width, to_color, first, i, j));
    assert(is_pixel_of(grid, width, to_color, second, i, j));
    let at = 4 * (i * width + j);
    let one = Rgb { r: first[at], g: first[at + 1], b: first[at + 2] };
    let other = Rgb { r: second[at], g: second[at + 1], b: second[at + 2] };
    assert(to_color.ensures((grid[i][j],), one));
    assert(to_color.ensures((grid[i][j],), other));
    assert(one == other);
}

/// Painting a field twice gives the same bytes as painting it once: with a
/// colour map that is a function, a second painting of the same field into
/// the frame that the first one left changes no byte.
pub proof fn lemma_painting_twice_changes_nothing<T, F: Fn(T) -> Rgb>(
    grid: Seq<Seq<T>>,
    height: nat,
    width: nat,
    to_color: F,
    before: Seq<u8>,
    once: Seq<u8>,
    twice: Seq<u8>,
)
    requires
        is_deterministic(to_color),
        is_painting(grid, height, width, to_color, before, once),
        is_painting(grid, height, width, to_color, once, twice),
    ensures
        twice == once,
{
    assert forall|k: int| 0 <= k < once.len() implies twice[k] == once[k] by {
        if k < 4 * height * width {
            lemma_pixels_agree(grid, height, width, to_color, once, twice, k);
        }
    }
    assert(twice =~= once);
}

/// A painting overwrites the whole picture: with a colour map that is a
/// function, two frames that held different bytes before hold the same
/// bytes, up to the end of the last pixel, after one field was painted into
/// each.
pub proof fn lemma_painting_ignores_earlier_contents<T, F: Fn(T) -> Rgb>(
    grid: Seq<Seq<T>>,
    height: nat,
    width: nat,
    to_color: F,
    first_before: Seq<u8>,
    first_after: Seq<u8>,
    second_before: Seq<u8>,
    second_after: Seq<u8>,
)
    requires
        is_deterministic(to_color),
        4 * height * width <= first_before.len(),
        4 * height * width <= second_before.len(),
        is_painting(grid, height, width, to_color, first_before, first_after),
        is_painting(grid, height, width, to_color, second_before, second_after),
    ensures
        first_after.subrange(0, (4 * height * width) as int) == second_after.subrange(
            0,
            (4 * height * width) as int,
        ),
{
    assert forall|k: int| 0 <= k < 4 * height * width implies first_after[k]
        == second_after[k] by {
        lemma_pixels_agree(grid, height, width, to_color, first_after, second_after, k);
    }
    assert(first_after.subrange(0, (4 * height * width) as int) =~= second_after.subrange(
        0,
        (4 * height * width) as int,
    ));
}

/// Whether `frame` takes `field`: it has the field's height and width and a
/// buffer long enough for its pixels.
pub fn fits<T>(field: &Field<T>, frame: &Frame) -> (ok: bool)
    ensures
        ok <==> frame_fits(
            field.spec_height(),
            field.spec_width(),
            frame_height(*frame) as nat,
            frame_width(*frame) as nat,
            frame_bytes(*frame).len(),
        ),
{
    let height = field.height();
    let width = field.width();
    if frame.height() as usize != height || frame.width() as usize != width {
        return false;
    }
    let len = frame.len();
    assert(4 * height * width == 4 * (height * width)) by (nonlinear_arith);
    assert(0 <= height * width) by (nonlinear_arith);
    match height.checked_mul(width) {
        Some(cells) => match cells.checked_mul(4) {
            Some(needed) => needed <= len,
            None => false,
        },
        None => false,
    }
}

/// Paints `field` into `frame`, the colour of each cell being what
/// `to_color` gives for it. The frame must have the field's height and
/// width and a buffer long enough for its pixels: where it has not, nothing
/// is written and the error says so.
pub fn render<T: Copy, F: Fn(T) -> Rgb>(field: &Field<T>, frame: &mut Frame, to_color: &F) -> (done:
    Result<(), GridError>)
    requires
        field.wf(),
        forall|value: T| to_color.requires((value,)),
    ensures
        frame_width(*final(frame)) == frame_width(*old(frame)),
        frame_height(*final(frame)) == frame_height(*old(frame)),
        done is Ok <==> frame_fits(
            field.spec_height(),
            field.spec_width(),
            frame_height(*old(frame)) as nat,
            frame_width(*old(frame)) as nat,
            frame_bytes(*old(frame)).len(),
        ),
        done is Ok ==> is_painting(
            field@,
            field.spec_height(),
            field.spec_width(),
            *to_color,
            frame_bytes(*old(frame)),
            frame_bytes(*final(frame)),
        ),
        done is Err ==> done == Err::<(), GridError>(GridError::DimensionMismatch)
            && frame_bytes(*final(frame)) == frame_bytes(*old(frame)),
{
    if !fits(field, frame) {
        return Err(GridError::DimensionMismatch);
    }
    let height = field.height();
    let width = field.width();
    let len = frame.len();
    assert(4 * height * width == 4 * (height * width)) by (nonlinear_arith);
    let needed = 4 * (height * width);
    let mut i: usize = 0;
    while i < height
        invariant
            i <= height,
            field.wf(),
            height == field.spec_height(),
            width == field.spec_width(),
            is_grid(field@, height as nat, width as nat),
            needed == 4 * (height * width),
            needed <= len,
            len == frame_bytes(*old(frame)).len(),
            frame_bytes(*frame).len() == len,
            frame_width(*frame) == frame_width(*old(frame)),
            frame_height(*frame) == frame_height(*old(frame)),
            forall|value: T| to_color.requires((value,)),
            forall|r: int, c: int|
                0 <= r < i && 0 <= c < width ==> #[trigger] is_pixel_of(
                    field@,
                    width as nat,
                    *to_color,
                    frame_bytes(*frame),
                    r,
                    c,
                ),
            forall|k: int|
                4 * (i * width) <= k < len ==> #[trigger] frame_bytes(*frame)[k] == frame_bytes(
                    *old(frame),
                )[k],
        decreases height - i,
    {
        let mut j: usize = 0;
        while j < width
            invariant
                i < height,
                j <= width,
                field.wf(),
                height == field.spec_height(),
                width == field.spec_width(),
                is_grid(field@, height as nat, width as nat),
                needed == 4 * (height * width),
                needed <= len,
                len == frame_bytes(*old(frame)).len(),
                frame_bytes(*frame).len() == len,
                frame_width(*frame) == frame_width(*old(frame)),
                frame_height(*frame) == frame_height(*old(frame)),
                forall|value: T| to_color.requires((value,)),
                forall|r: int, c: int|
                    (0 <= r < i && 0 <= c < width) || (r == i && 0 <= c < j)
                        ==> #[trigger] is_pixel_of(
                        field@,
                        width as nat,
                        *to_color,
                        frame_bytes(*frame),
                        r,
                        c,
                    ),
                forall|k: int|
                    4 * (i * width + j) <= k < len ==> #[trigger] frame_bytes(*frame)[k]
                        == frame_bytes(*old(frame))[k],
            decreases width - j,
        {
            proof {
                lemma_cell_before_end(height as int, width as int, i as int, j as int);
                lemma_cells_in_order(width as int, 0, 0, i as int, j as int + 1);
            }
            let color = to_color(field.cell(i, j));
            let at = 4 * (i * width + j);
            let ghost painted = frame_bytes(*frame);
            frame.set_byte(at, color.r);
            frame.set_byte(at + 1, color.g);
            frame.set_byte(at + 2, color.b);
            frame.set_byte(at + 3, 255);
            proof {
                let bytes = frame_bytes(*frame);
                assert(is_pixel_of(field@, width as nat, *to_color, bytes, i as int, j as int)) by {
                    assert(Rgb { r: bytes[at as int], g: bytes[at + 1], b: bytes[at + 2] } == color);
                }
                assert forall|r: int, c: int|
                    (0 <= r < i && 0 <= c < width) || (r == i && 0 <= c < j) implies #[trigger] is_pixel_of(
                    field@,
                    width as nat,
                    *to_color,
                    bytes,
                    r,
                    c,
                ) by {
                    lemma_cells_in_order(width as int, r, c, i as int, j as int);
                    assert(is_pixel_of(field@, width as nat, *to_color, painted, r, c));
                    let earlier = 4 * (r * width + c);
                    assert(bytes[earlier] == painted[earlier]);
                    assert(bytes[earlier + 1] == painted[earlier + 1]);
                    assert(bytes[earlier + 2] == painted[earlier + 2]);
                    assert(bytes[earlier + 3] == painted[earlier + 3]);
                }
            }
            j += 1;
        }
        proof {
            assert((i + 1) * width == i * width + width) by (nonlinear_arith);
        }
        i += 1;
    }
    proof {
        assert(4 * (height * width) == 4 * height * width) by (nonlinear_arith);
    }
    Ok(())
}

} // verus!
