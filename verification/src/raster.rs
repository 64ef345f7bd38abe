//! The raster driver: a square grid of samples over `[-1, 1] × [-1, 1]`,
//! one pixel per sample, dark where the program's value is above zero.
//!
//! Column `c` samples `x = c / 512 − 1`, row `r` samples `y = 1 − r / 512`,
//! so the top row is `y = 1`. Rows do not depend on one another: a row's
//! pixels are a matter of the program and the row's number alone, which is
//! what lets rows be computed in any order and by any number of workers.

use crate::binary64::{
    encode, is_dyadic, is_nan, is_negative, is_positive, law_pack_value, pack, positive, BIAS,
};
use crate::canvas::{blank, grid, set_pixel, Canvas};
use crate::eval::{admits, functional, law_one_value, total, Arith};
use crate::program::{Op, Program};
use crate::text::views;
use vstd::prelude::*;

verus! {

/// The number of pixels in a row.
pub const WIDTH: u32 = 1024;

/// The number of rows.
pub const HEIGHT: u32 = 1024;

/// Samples are multiples of `2^-SCALE`: half the grid's width is
/// `2^SCALE` pixels.
pub const SCALE: u64 = 9;

/// The pixel of a sample whose value is above zero.
pub const INSIDE: u8 = 0;

/// The pixel of every other sample.
pub const OUTSIDE: u8 = 255;

/// The pattern of `n / 512`.
pub open spec fn grid_value(n: int) -> u64 {
    pack(n < 0, (if n < 0 {
        -n
    } else {
        n
    }) as nat, (BIAS - SCALE) as nat)
}

/// The first coordinate of the samples in column `col`: `col / 512 − 1`.
pub open spec fn column_x(col: int) -> u64 {
    grid_value(col - 512)
}

/// The second coordinate of the samples in row `row`: `1 − row / 512`.
pub open spec fn row_y(row: int) -> u64 {
    grid_value(512 - row)
}

/// The pixel for a sample's value.
pub open spec fn shade(value: u64) -> u8 {
    if is_positive(value) {
        INSIDE
    } else {
        OUTSIDE
    }
}

/// `byte` is a pixel that the program may give the sample in column `col`
/// of row `row`.
pub open spec fn paints<F: Fn(Arith) -> u64>(
    program: &Program,
    unit: &F,
    col: int,
    row: int,
    byte: u8,
) -> bool {
    exists|value: u64| #[trigger]
        program.yields(unit, column_x(col), row_y(row), value) && byte == shade(value)
}

/// `pixels` is row `row` of an image of the program.
pub open spec fn paints_row<F: Fn(Arith) -> u64>(
    program: &Program,
    unit: &F,
    row: int,
    pixels: Seq<u8>,
) -> bool {
    &&& pixels.len() == WIDTH
    &&& forall|col: int| 0 <= col < WIDTH ==> paints(program, unit, col, row, #[trigger] pixels[col])
}

/// `rows` is an image of the program.
pub open spec fn paints_image<F: Fn(Arith) -> u64>(
    program: &Program,
    unit: &F,
    rows: Seq<Seq<u8>>,
) -> bool {
    &&& rows.len() == HEIGHT
    &&& forall|row: int| 0 <= row < HEIGHT ==> paints_row(program, unit, row, #[trigger] rows[row])
}

/// `rows` has the shape of an image.
pub open spec fn is_image(rows: Seq<Seq<u8>>) -> bool {
    &&& rows.len() == HEIGHT
    &&& forall|row: int| 0 <= row < HEIGHT ==> (#[trigger] rows[row]).len() == WIDTH
}

fn grid_point(n: i32) -> (bits: u64)
    requires
        -512 <= n <= 512,
    ensures
        bits == grid_value(n as int),
{
    if n < 0 {
        encode(true, (-n) as u64, BIAS - SCALE)
    } else {
        encode(false, n as u64, BIAS - SCALE)
    }
}

/// The first coordinate of the samples in a column.
pub fn sample_x(col: u32) -> (x: u64)
    requires
        col < WIDTH,
    ensures
        x == column_x(col as int),
{
    grid_point(col as i32 - 512)
}

/// The second coordinate of the samples in a row.
pub fn sample_y(row: u32) -> (y: u64)
    requires
        row < HEIGHT,
    ensures
        y == row_y(row as int),
{
    grid_point(512 - row as i32)
}

/// The pixel for a sample's value: dark if the value is above zero.
pub fn pixel(value: u64) -> (byte: u8)
    ensures
        byte == shade(value),
{
    if positive(value) {
        INSIDE
    } else {
        OUTSIDE
    }
}

/// Computes one row of the image, from the left.
pub fn render_row<F: Fn(Arith) -> u64>(program: &Program, row: u32, unit: &F) -> (pixels: Vec<u8>)
    requires
        program.wf(),
        total(unit),
        row < HEIGHT,
    ensures
        paints_row(program, unit, row as int, pixels@),
{
    let y = sample_y(row);
    let mut pixels: Vec<u8> = Vec::new();
    let mut col: u32 = 0;
    while col < WIDTH
        invariant
            col <= WIDTH,
            row < HEIGHT,
            program.wf(),
            total(unit),
            y == row_y(row as int),
            pixels@.len() == col,
            forall|c: int| 0 <= c < col ==> paints(program, unit, c, row as int, #[trigger] pixels@[c]),
        decreases WIDTH - col,
    {
        let x = sample_x(col);
        let value = program.execute(x, y, unit);
        pixels.push(pixel(value));
        assert(paints(program, unit, col as int, row as int, pixels@[col as int]));
        col += 1;
    }
    pixels
}

/// Copies rows that have the shape of an image into a fresh canvas.
fn compose(rows: &Vec<Vec<u8>>) -> (canvas: Canvas)
    requires
        is_image(views(rows@)),
    ensures
        grid(canvas) == views(rows@),
{
    let mut canvas = blank(WIDTH, HEIGHT);
    let mut row: u32 = 0;
    while row < HEIGHT
        invariant
            row <= HEIGHT,
            is_image(views(rows@)),
            is_image(grid(canvas)),
            forall|r: int| 0 <= r < row ==> #[trigger] grid(canvas)[r] == rows@[r]@,
        decreases HEIGHT - row,
    {
        assert(views(rows@)[row as int] == rows@[row as int]@);
        let line = &rows[row as usize];
        let mut col: u32 = 0;
        while col < WIDTH
            invariant
                col <= WIDTH,
                row < HEIGHT,
                line.len() == WIDTH,
                is_image(grid(canvas)),
                forall|r: int| 0 <= r < row ==> #[trigger] grid(canvas)[r] == rows@[r]@,
                forall|c: int| 0 <= c < col ==> #[trigger] grid(canvas)[row as int][c] == line@[c],
            decreases WIDTH - col,
        {
            set_pixel(&mut canvas, col, row, line[col as usize]);
            col += 1;
        }
        assert(grid(canvas)[row as int] =~= line@);
        row += 1;
    }
    assert(grid(canvas) =~= views(rows@));
    canvas
}

/// Tests [`is_image`].
fn has_image_shape(rows: &Vec<Vec<u8>>) -> (r: bool)
    ensures
        r == is_image(views(rows@)),
{
    if rows.len() != HEIGHT as usize {
        return false;
    }
    let mut row: usize = 0;
    while row < rows.len()
        invariant
            row <= rows.len(),
            rows.len() == HEIGHT,
            forall|r: int| 0 <= r < row ==> (#[trigger] views(rows@)[r]).len() == WIDTH,
        decreases rows.len() - row,
    {
        if rows[row].len() != WIDTH as usize {
            assert(views(rows@)[row as int].len() != WIDTH);
            return false;
        }
        row += 1;
    }
    true
}

/// Puts rows together into an image, the first row on top. Returns `None`
/// unless there are [`HEIGHT`] rows of [`WIDTH`] pixels each.
pub fn assemble(rows: &Vec<Vec<u8>>) -> (r: Option<Canvas>)
    ensures
        r is Some <==> is_image(views(rows@)),
        r matches Some(canvas) ==> grid(canvas) == views(rows@),
{
    if has_image_shape(rows) {
        Some(compose(rows))
    } else {
        None
    }
}

/// Computes the whole image, row after row.
pub fn render<F: Fn(Arith) -> u64>(program: &Program, unit: &F) -> (canvas: Canvas)
    requires
        program.wf(),
        total(unit),
    ensures
        paints_image(program, unit, grid(canvas)),
{
    let mut rows: Vec<Vec<u8>> = Vec::new();
    let mut row: u32 = 0;
    while row < HEIGHT
        invariant
            row <= HEIGHT,
            program.wf(),
            total(unit),
            rows@.len() == row,
            forall|r: int| 0 <= r < row ==> paints_row(program, unit, r, (#[trigger] rows@[r])@),
        decreases HEIGHT - row,
    {
        let line = render_row(program, row, unit);
        rows.push(line);
        row += 1;
    }
    assert(is_image(views(rows@)));
    compose(&rows)
}

/// The sample grid: the coordinates of column `col` and row `row` are the
/// numbers `col / 512 − 1` and `1 − row / 512`.
pub proof fn law_sample_point(col: int, row: int)
    requires
        0 <= col < WIDTH,
        0 <= row < HEIGHT,
    ensures
        is_dyadic(column_x(col), col - 512, SCALE as nat),
        is_dyadic(row_y(row), 512 - row, SCALE as nat),
{
    law_pack_value(col - 512, SCALE as nat);
    law_pack_value(512 - row, SCALE as nat);
}

/// A value that is not a number is painted as outside.
pub proof fn law_nan_is_outside(value: u64)
    requires
        is_nan(value),
    ensures
        shade(value) == OUTSIDE,
{
}

/// Where the arithmetic gives no number for the square root of a number
/// below zero, a program that ends in the square root of a slot that holds
/// such a number paints the sample as outside.
pub proof fn law_sqrt_of_negative<F: Fn(Arith) -> u64>(
    program: &Program,
    unit: &F,
    x: u64,
    y: u64,
    slots: Seq<u64>,
    a: usize,
)
    requires
        forall|v: u64, r: u64| is_negative(v) && unit.ensures((Arith::Sqrt(v),), r) ==> is_nan(r),
        program.traces(unit, x, y, slots),
        slots.len() > 0,
        program.instrs@.last().op == Op::Sqrt(a),
        is_negative(slots[a as int]),
    ensures
        shade(slots.last()) == OUTSIDE,
{
    assert(admits(program.instrs@[slots.len() - 1].op, slots, x, y, unit, slots[slots.len() - 1]));
}

/// With an arithmetic unit that answers each request in one way, a program
/// has one image: rendering it again gives the same bytes.
pub proof fn law_one_image<F: Fn(Arith) -> u64>(
    program: &Program,
    unit: &F,
    first: Seq<Seq<u8>>,
    second: Seq<Seq<u8>>,
)
    requires
        program.wf(),
        functional(unit),
        paints_image(program, unit, first),
        paints_image(program, unit, second),
    ensures
        first == second,
{
    assert forall|row: int| 0 <= row < HEIGHT implies first[row] == second[row] by {
        law_one_row(program, unit, row, first[row], second[row]);
    }
    assert(first =~= second);
}

/// With an arithmetic unit that answers each request in one way, a row of
/// the image is a matter of the program and the row's number alone.
pub proof fn law_one_row<F: Fn(Arith) -> u64>(
    program: &Program,
    unit: &F,
    row: int,
    first: Seq<u8>,
    second: Seq<u8>,
)
    requires
        program.wf(),
        functional(unit),
        paints_row(program, unit, row, first),
        paints_row(program, unit, row, second),
    ensures
        first == second,
{
    assert forall|col: int| 0 <= col < WIDTH implies first[col] == second[col] by {
        assert(paints(program, unit, col, row, first[col]));
        assert(paints(program, unit, col, row, second[col]));
        let v = choose|value: u64| #[trigger]
            program.yields(unit, column_x(col), row_y(row), value) && first[col] == shade(value);
        let w = choose|value: u64| #[trigger]
            program.yields(unit, column_x(col), row_y(row), value) && second[col] == shade(value);
        law_one_value(program, unit, column_x(col), row_y(row), v, w);
    }
    assert(first =~= second);
}

/// However the rows are shared out among workers, the image is the same.
/// `owner` says which worker has each row and `output` what a worker made of
/// a row; if each worker painted its rows, the rows put together in order
/// are the image that one worker would have painted alone.
pub proof fn law_partition<F: Fn(Arith) -> u64>(
    program: &Program,
    unit: &F,
    whole: Seq<Seq<u8>>,
    owner: spec_fn(int) -> int,
    output: spec_fn(int, int) -> Seq<u8>,
)
    requires
        program.wf(),
        functional(unit),
        paints_image(program, unit, whole),
        forall|row: int|
            0 <= row < HEIGHT ==> paints_row(program, unit, row, #[trigger] output(owner(row), row)),
    ensures
        Seq::new(HEIGHT as nat, |row: int| output(owner(row), row)) == whole,
{
    let joined = Seq::new(HEIGHT as nat, |row: int| output(owner(row), row));
    assert(paints_image(program, unit, joined));
    law_one_image(program, unit, joined, whole);
}

} // verus!
