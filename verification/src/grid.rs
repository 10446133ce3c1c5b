//! The pixel grid: a flat buffer of RGB triples reshaped into rows.

use vstd::prelude::*;
use crate::error::BufferLengthError;
use crate::options::Pixel;

verus! {

/// The pixel at `(row, col)` of a row-major buffer of RGB triples.
pub open spec fn pixel_at(flat: Seq<u8>, width: nat, row: int, col: int) -> Pixel {
    let offset = (row * width + col) * 3;
    (flat[offset], flat[offset + 1], flat[offset + 2])
}

/// The rows that a flat buffer holds for an image of the given size.
pub open spec fn reshaped(flat: Seq<u8>, width: nat, height: nat) -> Seq<Seq<Pixel>> {
    Seq::new(height, |r: int| Seq::new(width, |c: int| pixel_at(flat, width, r, c)))
}

/// Every row of `rows` has `width` pixels.
pub open spec fn rectangular(rows: Seq<Seq<Pixel>>, width: nat) -> bool {
    forall|r: int| 0 <= r < rows.len() ==> (#[trigger] rows[r]).len() == width
}

/// The number of pixels in a buffer of `len` bytes, which is refused unless it
/// is made of whole triples.
pub fn pixel_count(len: usize) -> (count: Result<usize, BufferLengthError>)
    ensures
        len % 3 == 0 ==> count == Ok::<usize, BufferLengthError>((len / 3) as usize),
        len % 3 != 0 ==> count == Err::<usize, BufferLengthError>(BufferLengthError::Format),
{
    if len % 3 != 0 {
        Err(BufferLengthError::Format)
    } else {
        Ok(len / 3)
    }
}

/// A grid of `height` rows of `width` pixels each, fixed when it is built.
pub struct PixelGrid {
    width: usize,
    height: usize,
    rows: Vec<Vec<Pixel>>,
}

impl View for PixelGrid {
    type V = Seq<Seq<Pixel>>;

    closed spec fn view(&self) -> Seq<Seq<Pixel>> {
        Seq::new(self.rows@.len(), |r: int| self.rows@[r]@)
    }
}

impl PixelGrid {
    #[verifier::type_invariant]
    spec fn consistent(&self) -> bool {
        &&& self.rows@.len() == self.height
        &&& forall|r: int| 0 <= r < self.rows@.len() ==> (#[trigger] self.rows@[r])@.len() == self.width
    }

    /// The number of pixels in a row.
    pub closed spec fn spec_width(&self) -> nat {
        self.width as nat
    }

    /// The number of rows.
    pub closed spec fn spec_height(&self) -> nat {
        self.height as nat
    }

    /// Reshapes a flat buffer of RGB triples, row after row, into a grid.
    /// The buffer is refused unless it is made of triples, and of exactly
    /// `width * height` of them.
    pub fn build(flat: &[u8], width: usize, height: usize) -> (grid: Result<
        PixelGrid,
        BufferLengthError,
    >)
        ensures
            grid is Ok <==> flat@.len() == width * height * 3,
            flat@.len() % 3 != 0 <==> grid is Err && grid->Err_0 == BufferLengthError::Format,
            flat@.len() % 3 == 0 && flat@.len() != width * height * 3 <==> grid is Err && grid->Err_0
                == BufferLengthError::DimensionMismatch,
            grid is Ok ==> {
                &&& grid->Ok_0@ == reshaped(flat@, width as nat, height as nat)
                &&& grid->Ok_0.spec_width() == width
                &&& grid->Ok_0.spec_height() == height
            },
    {
        let len = flat.len();
        match pixel_count(len) {
            Err(e) => {
                assert(width * height * 3 == (width * height) * 3);
                return Err(e);
            },
            Ok(_) => {},
        }
        let fits = match width.checked_mul(height) {
            Some(pixels) => match pixels.checked_mul(3) {
                Some(bytes) => bytes == len,
                None => false,
            },
            None => false,
        };
        if !fits {
            assert(width * height > usize::MAX ==> width * height * 3 > usize::MAX)
                by (nonlinear_arith);
            return Err(BufferLengthError::DimensionMismatch);
        }
        let mut rows: Vec<Vec<Pixel>> = Vec::new();
        let mut r: usize = 0;
        while r < height
            invariant
                r <= height,
                flat@.len() == width * height * 3,
                flat@.len() <= usize::MAX,
                rows@.len() == r,
                forall|i: int| 0 <= i < r ==> (#[trigger] rows@[i])@ == reshaped(flat@, width as nat, height as nat)[i],
            decreases height - r,
        {
            let mut row: Vec<Pixel> = Vec::new();
            let mut c: usize = 0;
            while c < width
                invariant
                    c <= width,
                    r < height,
                    flat@.len() == width * height * 3,
                    flat@.len() <= usize::MAX,
                    row@.len() == c,
                    forall|j: int| 0 <= j < c ==> row@[j] == pixel_at(flat@, width as nat, r as int, j),
                decreases width - c,
            {
                assert((r * width + c) * 3 + 2 < width * height * 3) by (nonlinear_arith)
                    requires
                        r < height,
                        c < width,
                ;
                assert(0 <= r * width <= r * width + c) by (nonlinear_arith);
                let offset: usize = (r * width + c) * 3;
                row.push((flat[offset], flat[offset + 1], flat[offset + 2]));
                c += 1;
            }
            assert(row@ =~= reshaped(flat@, width as nat, height as nat)[r as int]);
            rows.push(row);
            r += 1;
        }
        let grid = PixelGrid { width, height, rows };
        assert(grid@ =~= reshaped(flat@, width as nat, height as nat));
        Ok(grid)
    }

    /// The number of pixels in a row.
    pub fn width(&self) -> (width: usize)
        ensures
            width == self.spec_width(),
            rectangular(self@, self.spec_width()),
    {
        proof {
            use_type_invariant(self);
        }
        self.width
    }

    /// The number of rows.
    pub fn height(&self) -> (height: usize)
        ensures
            height == self.spec_height(),
            self@.len() == self.spec_height(),
    {
        proof {
            use_type_invariant(self);
        }
        self.height
    }

    /// The pixels of row `r`, left to right.
    pub fn row(&self, r: usize) -> (row: &[Pixel])
        requires
            r < self.spec_height(),
        ensures
            row@ == self@[r as int],
            row@.len() == self.spec_width(),
    {
        proof {
            use_type_invariant(self);
        }
        self.rows[r].as_slice()
    }
}

} // verus!
