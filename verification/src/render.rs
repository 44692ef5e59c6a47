//! Grouping a grid of palette indices into styled half-block cells: each
//! terminal row shows two image rows, the upper one as the cell background
//! and the lower one as the foreground of a lower-half-block glyph. A final
//! unpaired row becomes foreground-only full-block cells.

use vstd::prelude::*;

verus! {

/// Which character a cell shows: the lower-half block when the cell carries
/// two image rows, the full block when only an upper row is left.
#[derive(Clone, Copy, PartialEq, Eq, Structural, Debug)]
pub enum Glyph {
    LowerHalf,
    FullBlock,
}

/// One styled character cell: a foreground palette index, an optional
/// background palette index, and the glyph to draw.
#[derive(Clone, Copy, PartialEq, Eq, Structural, Debug)]
pub struct TerminalCell {
    pub fg: u8,
    pub bg: Option<u8>,
    pub glyph: Glyph,
}

/// The cell that line `li`, column `c` of the rendering shows, for a grid
/// of the given width and height: rows `2 * li` and `2 * li + 1` paired,
/// the lower row as foreground over the upper row as background, or the
/// upper row alone, foreground only, when no lower row exists.
pub open spec fn cell_at(
    grid: Seq<usize>,
    width: int,
    height: int,
    li: int,
    c: int,
) -> TerminalCell {
    let upper = grid[2 * li * width + c];
    if 2 * li + 1 < height {
        let lower = grid[(2 * li + 1) * width + c];
        (TerminalCell { fg: lower as u8, bg: Some(upper as u8), glyph: Glyph::LowerHalf })
    } else {
        (TerminalCell { fg: upper as u8, bg: None, glyph: Glyph::FullBlock })
    }
}

/// With an odd row count the rendering ends in a degenerate line: the grid
/// makes exactly `ceil(height / 2)` lines, and every cell of the last one
/// carries only a foreground color — no background — and shows the full
/// block, because its row has no partner below it.
pub proof fn lemma_odd_height_last_line(grid: Seq<usize>, width: int, height: int)
    requires
        width > 0,
        height > 0,
        height % 2 == 1,
    ensures
        forall|c: int|
            0 <= c < width ==> {
                let cell = #[trigger] cell_at(grid, width, height, (height + 1) / 2 - 1, c);
                cell.bg is None && cell.glyph == Glyph::FullBlock && cell.fg == grid[(height - 1)
                    * width + c] as u8
            },
{
    let last = (height + 1) / 2 - 1;
    assert(2 * last + 1 == height);
}

/// Renders the index grid into lines of styled cells, one line per pair of
/// adjacent rows, top to bottom: exactly `ceil(height / 2)` lines of
/// `width` cells each. When `height` is odd, the cells of the last line
/// carry only a foreground color and the full-block glyph.
pub fn render(grid: &Vec<usize>, width: usize, height: usize) -> (lines: Vec<Vec<TerminalCell>>)
    requires
        width > 0,
        height > 0,
        grid@.len() == width * height,
        forall|j: int| 0 <= j < grid@.len() ==> grid@[j] < 256,
    ensures
        lines@.len() == (height + 1) / 2,
        forall|li: int|
            0 <= li < lines@.len() ==> #[trigger] lines@[li]@.len() == width,
        forall|li: int, c: int|
            0 <= li < lines@.len() && 0 <= c < width ==> #[trigger] lines@[li]@[c] == cell_at(
                grid@,
                width as int,
                height as int,
                li,
                c,
            ),
{
    let glen = grid.len();
    let nlines = height / 2 + height % 2;
    let mut lines: Vec<Vec<TerminalCell>> = Vec::new();
    let mut li: usize = 0;
    while li < nlines
        invariant
            nlines == (height + 1) / 2,
            glen == grid@.len(),
            width > 0,
            height > 0,
            grid@.len() == width * height,
            forall|j: int| 0 <= j < grid@.len() ==> grid@[j] < 256,
            li <= nlines,
            lines@.len() == li,
            forall|i: int| 0 <= i < li ==> #[trigger] lines@[i]@.len() == width,
            forall|i: int, c: int|
                0 <= i < li && 0 <= c < width ==> #[trigger] lines@[i]@[c] == cell_at(
                    grid@,
                    width as int,
                    height as int,
                    i,
                    c,
                ),
        decreases nlines - li,
    {
        let upper_row = 2 * li;
        proof {
            assert(upper_row < height);
            assert(upper_row * width + width <= height * width) by (nonlinear_arith)
                requires
                    upper_row < height,
                    width > 0,
            ;
            assert(height * width == width * height) by (nonlinear_arith);
            if 2 * li + 1 < height {
                assert((upper_row + 1) * width + width <= height * width) by (nonlinear_arith)
                    requires
                        upper_row + 1 < height,
                        width > 0,
                ;
            }
        }
        let mut line: Vec<TerminalCell> = Vec::new();
        let mut c: usize = 0;
        if upper_row + 1 < height {
            let lower_row = upper_row + 1;
            while c < width
                invariant
                    width > 0,
                    grid@.len() == width * height,
                    forall|j: int| 0 <= j < grid@.len() ==> grid@[j] < 256,
                    glen == grid@.len(),
                    lower_row == upper_row + 1,
                    lower_row < height,
                    upper_row == 2 * li,
                    upper_row * width + width <= glen,
                    lower_row * width + width <= glen,
                    c <= width,
                    line@.len() == c,
                    forall|cc: int|
                        0 <= cc < c ==> #[trigger] line@[cc] == cell_at(
                            grid@,
                            width as int,
                            height as int,
                            li as int,
                            cc,
                        ),
                decreases width - c,
            {
                let upper = grid[upper_row * width + c];
                let lower = grid[lower_row * width + c];
                line.push(TerminalCell { fg: lower as u8, bg: Some(upper as u8), glyph: Glyph::LowerHalf });
                c += 1;
            }
        } else {
            while c < width
                invariant
                    width > 0,
                    grid@.len() == width * height,
                    forall|j: int| 0 <= j < grid@.len() ==> grid@[j] < 256,
                    glen == grid@.len(),
                    upper_row == 2 * li,
                    upper_row + 1 >= height,
                    upper_row * width + width <= glen,
                    c <= width,
                    line@.len() == c,
                    forall|cc: int|
                        0 <= cc < c ==> #[trigger] line@[cc] == cell_at(
                            grid@,
                            width as int,
                            height as int,
                            li as int,
                            cc,
                        ),
                decreases width - c,
            {
                let upper = grid[upper_row * width + c];
                line.push(TerminalCell { fg: upper as u8, bg: None, glyph: Glyph::FullBlock });
                c += 1;
            }
        }
        lines.push(line);
        li += 1;
    }
    lines
}

} // verus!
