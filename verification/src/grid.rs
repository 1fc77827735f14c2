//! The text raster: one symbol per pixel, rows from top to bottom, each row
//! closed by a newline, the whole closed by the terminator.
//!
//! Pixel `(col, row)` of a grid `width` wide is outcome number
//! `row * width + col`: outcomes are taken row by row.

use crate::cstring::{free_of_terminator, is_c_string, TERMINATOR};
use vstd::prelude::*;

verus! {

/// Symbol of a point whose orbit escaped: `-`.
pub const ESCAPED_SYMBOL: u8 = 0x2D;

/// Symbol of a point whose orbit stayed bounded: `*`.
pub const BOUNDED_SYMBOL: u8 = 0x2A;

/// The byte that closes a row: a newline.
pub const ROW_END: u8 = 0x0A;

/// The symbol that stands for an iteration result: a positive count is an
/// escape, everything else counts as bounded.
pub open spec fn symbol_of(result: i32) -> u8 {
    if result > 0 {
        ESCAPED_SYMBOL
    } else {
        BOUNDED_SYMBOL
    }
}

/// How many pixels a dimension spans: a dimension of zero or less spans none.
pub open spec fn extent(dimension: i32) -> nat {
    if dimension > 0 {
        dimension as nat
    } else {
        0
    }
}

/// Number of outcomes that a grid takes.
pub open spec fn pixel_count(width: i32, height: i32) -> nat {
    extent(width) * extent(height)
}

/// Bytes that one row takes in the buffer, its newline included.
pub open spec fn stride(width: i32) -> nat {
    extent(width) + 1
}

/// Place of pixel `(col, row)` among the outcomes.
pub open spec fn pixel_index(width: i32, row: int, col: int) -> int {
    row * extent(width) + col
}

/// Place of pixel `(col, row)` in the buffer; with `col` equal to the width,
/// the place of the newline of row `row`.
pub open spec fn byte_index(width: i32, row: int, col: int) -> int {
    row * stride(width) + col
}

/// The symbols of the first `len` pixels of row `row`.
pub open spec fn row_symbols(width: i32, results: Seq<i32>, row: int, len: nat) -> Seq<u8> {
    Seq::new(len, |col: int| symbol_of(results[pixel_index(width, row, col)]))
}

/// The first `count` rows, each with its newline.
pub open spec fn rows(width: i32, results: Seq<i32>, count: nat) -> Seq<u8>
    decreases count,
{
    if count == 0 {
        Seq::empty()
    } else {
        rows(width, results, (count - 1) as nat) + row_symbols(
            width,
            results,
            count - 1,
            extent(width),
        ).push(ROW_END)
    }
}

/// The buffer of a whole grid: all rows, then the terminator.
pub open spec fn rendered(width: i32, height: i32, results: Seq<i32>) -> Seq<u8> {
    rows(width, results, extent(height)).push(TERMINATOR)
}

/// Gives the symbol of one iteration result.
pub fn symbol(result: i32) -> (byte: u8)
    ensures
        byte == symbol_of(result),
{
    if result > 0 {
        ESCAPED_SYMBOL
    } else {
        BOUNDED_SYMBOL
    }
}

/// The first `count` rows take `count` strides.
pub proof fn lemma_rows_len(width: i32, results: Seq<i32>, count: nat)
    ensures
        rows(width, results, count).len() == count * stride(width),
    decreases count,
{
    if count > 0 {
        lemma_rows_len(width, results, (count - 1) as nat);
        assert((count - 1) * stride(width) + stride(width) == count * stride(width))
            by (nonlinear_arith);
    } else {
        assert(0 * stride(width) == 0) by (nonlinear_arith);
    }
}

/// Where each byte of the first `count` rows stands: the symbol of pixel
/// `(col, row)` at `row * stride + col`, the newline of a row right behind
/// its last symbol.
pub proof fn lemma_rows_layout(width: i32, results: Seq<i32>, count: nat, row: int, col: int)
    requires
        0 <= row < count,
        0 <= col <= extent(width),
    ensures
        0 <= byte_index(width, row, col) < rows(width, results, count).len(),
        col < extent(width) ==> rows(width, results, count)[byte_index(width, row, col)]
            == symbol_of(results[pixel_index(width, row, col)]),
        col == extent(width) ==> rows(width, results, count)[byte_index(width, row, col)]
            == ROW_END,
    decreases count,
{
    let head = rows(width, results, (count - 1) as nat);
    lemma_rows_len(width, results, (count - 1) as nat);
    lemma_rows_len(width, results, count);
    let at = byte_index(width, row, col);
    assert(0 <= row * stride(width)) by (nonlinear_arith)
        requires
            0 <= row,
    ;
    if row < count - 1 {
        lemma_rows_layout(width, results, (count - 1) as nat, row, col);
        assert(rows(width, results, count)[at] == head[at]);
    } else {
        assert(head.len() == row * stride(width));
        assert(count * stride(width) == row * stride(width) + stride(width))
            by (nonlinear_arith)
            requires
                row == count - 1,
        ;
        let tail = row_symbols(width, results, count - 1, extent(width)).push(ROW_END);
        assert(rows(width, results, count)[at] == tail[col]);
    }
}

/// No byte of the rows is the terminator.
pub proof fn lemma_rows_free_of_terminator(width: i32, results: Seq<i32>, count: nat)
    ensures
        free_of_terminator(rows(width, results, count)),
    decreases count,
{
    if count > 0 {
        lemma_rows_free_of_terminator(width, results, (count - 1) as nat);
        let head = rows(width, results, (count - 1) as nat);
        let tail = row_symbols(width, results, count - 1, extent(width)).push(ROW_END);
        assert forall|i: int| 0 <= i < (head + tail).len() implies #[trigger] (head + tail)[i]
            != TERMINATOR by {
            if i >= head.len() {
                assert((head + tail)[i] == tail[i - head.len()]);
            }
        }
    }
}

/// The buffer of a grid holds exactly `height` rows. Each row holds `width`
/// symbols, every one of them the escaped or the bounded symbol as its pixel's
/// outcome says, and then a newline. The terminator follows the last row, and
/// nothing follows the terminator.
pub proof fn lemma_rendered_layout(width: i32, height: i32, results: Seq<i32>)
    ensures
        rendered(width, height, results).len() == extent(height) * (extent(width) + 1) + 1,
        forall|row: int, col: int|
            0 <= row < extent(height) && 0 <= col < extent(width) ==> {
                let byte = rendered(width, height, results)[#[trigger] byte_index(width, row, col)];
                &&& byte == symbol_of(results[pixel_index(width, row, col)])
                &&& (byte == ESCAPED_SYMBOL || byte == BOUNDED_SYMBOL)
            },
        forall|row: int|
            0 <= row < extent(height) ==> rendered(width, height, results)[#[trigger] byte_index(
                width,
                row,
                extent(width) as int,
            )] == ROW_END,
        rendered(width, height, results).last() == TERMINATOR,
        is_c_string(rendered(width, height, results)),
{
    let body = rows(width, results, extent(height));
    let whole = rendered(width, height, results);
    lemma_rows_len(width, results, extent(height));
    lemma_rows_free_of_terminator(width, results, extent(height));
    assert(whole.drop_last() =~= body);
    assert forall|row: int, col: int|
        0 <= row < extent(height) && 0 <= col <= extent(width) implies whole[#[trigger] byte_index(
        width,
        row,
        col,
    )] == body[byte_index(width, row, col)] && (col < extent(width) ==> body[byte_index(
        width,
        row,
        col,
    )] == symbol_of(results[pixel_index(width, row, col)])) && (col == extent(width)
        ==> body[byte_index(width, row, col)] == ROW_END) by {
        lemma_rows_layout(width, results, extent(height), row, col);
    }
}

/// Two grids of the same dimensions whose outcomes agree, pixel by pixel, on
/// being positive have the same buffer: a buffer shows which points escaped
/// and nothing else. In particular equal arguments give equal buffers.
pub proof fn lemma_rendered_by_classes(width: i32, height: i32, first: Seq<i32>, second: Seq<i32>)
    requires
        forall|i: int|
            0 <= i < pixel_count(width, height) ==> (#[trigger] first[i] > 0 <==> second[i] > 0),
    ensures
        rendered(width, height, first) == rendered(width, height, second),
{
    lemma_rows_by_classes(width, height, first, second, extent(height));
}

/// The rows of two grids whose outcomes agree on being positive are the same.
proof fn lemma_rows_by_classes(
    width: i32,
    height: i32,
    first: Seq<i32>,
    second: Seq<i32>,
    count: nat,
)
    requires
        count <= extent(height),
        forall|i: int|
            0 <= i < pixel_count(width, height) ==> (#[trigger] first[i] > 0 <==> second[i] > 0),
    ensures
        rows(width, first, count) == rows(width, second, count),
    decreases count,
{
    if count > 0 {
        lemma_rows_by_classes(width, height, first, second, (count - 1) as nat);
        let row = count - 1;
        assert forall|col: int| 0 <= col < extent(width) implies symbol_of(
            first[pixel_index(width, row, col)],
        ) == symbol_of(second[pixel_index(width, row, col)]) by {
            lemma_pixel_in_grid(width, height, row, col);
        }
        assert(row_symbols(width, first, row, extent(width)) =~= row_symbols(
            width,
            second,
            row,
            extent(width),
        ));
    }
}

/// Every pixel of the grid has its place among the outcomes.
pub proof fn lemma_pixel_in_grid(width: i32, height: i32, row: int, col: int)
    requires
        0 <= row < extent(height),
        0 <= col < extent(width),
    ensures
        0 <= pixel_index(width, row, col) < pixel_count(width, height),
{
    let w = extent(width) as int;
    let h = extent(height) as int;
    assert(0 <= row * w && row * w + w <= w * h) by (nonlinear_arith)
        requires
            0 <= row < h,
            0 <= w,
    ;
}

/// Lays out the buffer of a grid from the iteration results of its pixels,
/// taken row by row: a symbol for each pixel, a newline after each row, the
/// terminator at the end. A dimension of zero or less spans no pixel: no
/// width leaves the newlines, no height leaves the terminator alone.
pub fn mandel(width: i32, height: i32, results: &Vec<i32>) -> (buffer: Vec<u8>)
    requires
        results@.len() == pixel_count(width, height),
    ensures
        buffer@ == rendered(width, height, results@),
        is_c_string(buffer@),
{
    let mut buffer: Vec<u8> = Vec::new();
    let mut next: usize = 0;
    let mut row: i32 = 0;
    while row < height
        invariant
            0 <= row <= extent(height),
            results@.len() == pixel_count(width, height),
            next == pixel_index(width, row as int, 0),
            buffer@ == rows(width, results@, row as nat),
        decreases height - row,
    {
        let mut col: i32 = 0;
        while col < width
            invariant
                0 <= row < extent(height),
                0 <= col <= extent(width),
                results@.len() == pixel_count(width, height),
                next == pixel_index(width, row as int, col as int),
                buffer@ == rows(width, results@, row as nat) + row_symbols(
                    width,
                    results@,
                    row as int,
                    col as nat,
                ),
            decreases width - col,
        {
            proof {
                lemma_pixel_in_grid(width, height, row as int, col as int);
            }
            let byte = symbol(results[next]);
            buffer.push(byte);
            assert(buffer@ =~= rows(width, results@, row as nat) + row_symbols(
                width,
                results@,
                row as int,
                (col + 1) as nat,
            ));
            assert(next < results.len());
            next = next + 1;
            col = col + 1;
        }
        buffer.push(ROW_END);
        assert(buffer@ =~= rows(width, results@, (row + 1) as nat));
        assert(row * extent(width) + extent(width) == (row + 1) * extent(width))
            by (nonlinear_arith);
        row = row + 1;
    }
    buffer.push(TERMINATOR);
    proof {
        lemma_rendered_layout(width, height, results@);
    }
    buffer
}

} // verus!
