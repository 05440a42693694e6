//! Band layout of a matrix: the list of cells `(row, row + displacement)`
//! that lie inside an `nrows x ncols` matrix, in ascending row order. The
//! state and output matrices of the companion-form realization are filled
//! along such bands (the superdiagonal of `A`, the identity block of `C`).

use vstd::prelude::*;

verus! {

/// Row index of the first cell of the band at `displacement`: for a band
/// below the main diagonal the first rows have no cell.
pub open spec fn band_lo(displacement: int) -> int {
    if displacement >= 0 {
        0
    } else {
        -displacement
    }
}

/// One past the row index of the last cell of the band at `displacement`,
/// before clamping against `band_lo`: rows from here on have their cell at
/// or beyond column `ncols`.
pub open spec fn band_hi(nrows: int, ncols: int, displacement: int) -> int {
    if nrows <= ncols - displacement {
        nrows
    } else {
        ncols - displacement
    }
}

/// The number of cells of the band at `displacement` inside an
/// `nrows x ncols` matrix.
pub open spec fn band_len(nrows: int, ncols: int, displacement: int) -> int {
    if band_lo(displacement) <= band_hi(nrows, ncols, displacement) {
        band_hi(nrows, ncols, displacement) - band_lo(displacement)
    } else {
        0
    }
}

/// The cells `(iy, iy + displacement)` that lie inside an `nrows x ncols`
/// matrix, in ascending row order: the band `displacement` columns above
/// (or, negative, below) the main diagonal.
pub fn upper_diag_cells(nrows: usize, ncols: usize, displacement: i32) -> (cells: Vec<
    (usize, usize),
>)
    ensures
        cells@.len() == band_len(nrows as int, ncols as int, displacement as int),
        forall|t: int|
            0 <= t < cells@.len() ==> cells@[t].0 == band_lo(displacement as int) + t
                && cells@[t].1 == cells@[t].0 + displacement,
        forall|t: int| 0 <= t < cells@.len() ==> cells@[t].0 < nrows && cells@[t].1 < ncols,
{
    let mut cells: Vec<(usize, usize)> = Vec::new();
    if displacement >= 0 {
        let d: usize = displacement as usize;
        if d < ncols {
            let hi: usize = if nrows <= ncols - d {
                nrows
            } else {
                ncols - d
            };
            let mut iy: usize = 0;
            while iy < hi
                invariant
                    iy <= hi,
                    d + hi <= ncols,
                    hi <= nrows,
                    cells@.len() == iy,
                    forall|t: int| 0 <= t < iy ==> cells@[t].0 == t && cells@[t].1 == t + d,
                decreases hi - iy,
            {
                cells.push((iy, iy + d));
                iy = iy + 1;
            }
        }
    } else {
        let d: usize = (-(displacement as i64)) as usize;
        if d < nrows {
            let count: usize = if nrows - d <= ncols {
                nrows - d
            } else {
                ncols
            };
            let mut j: usize = 0;
            while j < count
                invariant
                    j <= count,
                    d + count <= nrows,
                    count <= ncols,
                    cells@.len() == j,
                    forall|t: int| 0 <= t < j ==> cells@[t].0 == d + t && cells@[t].1 == t,
                decreases count - j,
            {
                cells.push((d + j, j));
                j = j + 1;
            }
        }
    }
    cells
}

} // verus!
