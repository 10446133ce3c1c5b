//! The whole conversion: from a decoded buffer to the array text and the preview.

use vstd::prelude::*;
use crate::emit::{array_text, render, row_views};
use crate::error::{BufferLengthError, ConvertError};
use crate::grid::{rectangular, reshaped, PixelGrid};
use crate::options::{Options, Pixel};
use crate::pack::{classify_row, pack_row, packed_row, row_bits};

verus! {

/// The packed values of every row of a grid.
pub open spec fn packed_rows(grid: Seq<Seq<Pixel>>, options: Options) -> Seq<Seq<u8>> {
    Seq::new(grid.len(), |r: int| packed_row(grid[r], options))
}

/// One line of the preview: an `X` for each bit that is on, a blank for each
/// that is off, left to right, and a line feed.
pub open spec fn preview_line(bits: Seq<bool>) -> Seq<u8> {
    Seq::new(
        bits.len(),
        |i: int|
            if bits[i] {
                88u8
            } else {
                32u8
            },
    ).push(10u8)
}

/// The preview lines of the first `n` rows of a grid.
pub open spec fn preview_text(grid: Seq<Seq<Pixel>>, options: Options, n: nat) -> Seq<u8>
    decreases n,
{
    if n == 0 {
        Seq::empty()
    } else {
        preview_text(grid, options, (n - 1) as nat) + preview_line(row_bits(grid[n - 1], options))
    }
}

/// Why a buffer of `len` bytes is not converted as an image of the given
/// size, if it is not: the length is tested first, then the width.
pub open spec fn refusal(len: nat, width: nat, height: nat, options: Options) -> Option<
    ConvertError,
> {
    if len % 3 != 0 {
        Some(ConvertError::BufferLength(BufferLengthError::Format))
    } else if len != width * height * 3 {
        Some(ConvertError::BufferLength(BufferLengthError::DimensionMismatch))
    } else if options.compact && width % 8 != 0 {
        Some(ConvertError::CompactDivisibility)
    } else {
        None
    }
}

/// What a conversion produces.
pub struct Converted {
    /// The text of the array declaration.
    pub text: Vec<u8>,
    /// The preview, one line for each row; empty unless it was asked for.
    pub preview: Vec<u8>,
}

/// Appends the preview line of one row.
pub fn push_preview_line(out: &mut Vec<u8>, bits: &[bool])
    ensures
        final(out)@ == old(out)@ + preview_line(bits@),
{
    let mut i: usize = 0;
    while i < bits.len()
        invariant
            i <= bits@.len(),
            out@.len() == old(out)@.len() + i,
            forall|j: int| 0 <= j < old(out)@.len() ==> out@[j] == old(out)@[j],
            forall|j: int| 0 <= j < i ==> out@[old(out)@.len() + j] == preview_line(bits@)[j],
        decreases bits@.len() - i,
    {
        out.push(if bits[i] { 88 } else { 32 });
        i += 1;
    }
    out.push(10);
    assert(out@ =~= old(out)@ + preview_line(bits@));
}

/// Packs every row of a grid. When packing into bytes is asked for, a grid
/// whose width is no multiple of eight is refused, whatever its height.
pub fn pack_grid(grid: &PixelGrid, options: &Options) -> (rows: Result<Vec<Vec<u8>>, ConvertError>)
    ensures
        rows is Err <==> options.compact && grid.spec_width() % 8 != 0,
        rows is Err ==> rows->Err_0 == ConvertError::CompactDivisibility,
        rows is Ok ==> row_views(rows->Ok_0@) == packed_rows(grid@, *options),
{
    let width = grid.width();
    let height = grid.height();
    if options.compact && width % 8 != 0 {
        return Err(ConvertError::CompactDivisibility);
    }
    let mut rows: Vec<Vec<u8>> = Vec::new();
    let mut y: usize = 0;
    while y < height
        invariant
            y <= height,
            height == grid.spec_height(),
            grid@.len() == height,
            rectangular(grid@, width as nat),
            width == grid.spec_width(),
            !(options.compact && width % 8 != 0),
            rows@.len() == y,
            forall|r: int| 0 <= r < y ==> (#[trigger] rows@[r])@ == packed_row(grid@[r], *options),
        decreases height - y,
    {
        match pack_row(grid.row(y), options) {
            Ok(values) => {
                rows.push(values);
            },
            Err(e) => {
                return Err(e);
            },
        }
        y += 1;
    }
    assert(row_views(rows@) =~= packed_rows(grid@, *options));
    Ok(rows)
}

/// The preview of a grid: one line for each row.
pub fn preview(grid: &PixelGrid, options: &Options) -> (out: Vec<u8>)
    ensures
        out@ == preview_text(grid@, *options, grid@.len()),
{
    let height = grid.height();
    let mut out: Vec<u8> = Vec::new();
    let mut y: usize = 0;
    assert(out@ =~= preview_text(grid@, *options, 0));
    while y < height
        invariant
            y <= height,
            height == grid.spec_height(),
            grid@.len() == height,
            out@ == preview_text(grid@, *options, y as nat),
        decreases height - y,
    {
        let bits = classify_row(grid.row(y), options);
        push_preview_line(&mut out, bits.as_slice());
        y += 1;
    }
    out
}

/// Converts a decoded image: `buf` holds its pixels as RGB triples, row after
/// row. The result is the array text and, where the options ask for it, the
/// preview. Nothing is produced for a buffer of the wrong length, nor, when
/// packing into bytes, for a width that is no multiple of eight.
pub fn process_image(options: &Options, width: usize, height: usize, buf: &[u8]) -> (result: Result<
    Converted,
    ConvertError,
>)
    ensures
        result is Err <==> refusal(buf@.len(), width as nat, height as nat, *options) is Some,
        result is Err ==> Some(result->Err_0) == refusal(
            buf@.len(),
            width as nat,
            height as nat,
            *options,
        ),
        result is Ok ==> {
            let grid = reshaped(buf@, width as nat, height as nat);
            &&& result->Ok_0.text@ == array_text(
                width as nat,
                height as nat,
                options.compact,
                packed_rows(grid, *options),
            )
            &&& result->Ok_0.preview@ == if options.print {
                preview_text(grid, *options, height as nat)
            } else {
                Seq::<u8>::empty()
            }
        },
{
    let grid = match PixelGrid::build(buf, width, height) {
        Ok(grid) => grid,
        Err(e) => {
            return Err(ConvertError::BufferLength(e));
        },
    };
    let rows = match pack_grid(&grid, options) {
        Ok(rows) => rows,
        Err(e) => {
            return Err(e);
        },
    };
    let text = render(width, height, options.compact, rows.as_slice());
    let preview = if options.print {
        preview(&grid, options)
    } else {
        Vec::new()
    };
    Ok(Converted { text, preview })
}

} // verus!
