use pic2term::render::{render, Glyph, TerminalCell};

fn cell(fg: u8, bg: Option<u8>, glyph: Glyph) -> TerminalCell {
    TerminalCell { fg, bg, glyph }
}

#[test]
fn pairs_rows_lower_over_upper() {
    // 1 column, 2 rows: one line whose cell shows the lower row's color
    // over the upper row's as background.
    let grid: Vec<usize> = vec![7, 9];
    let lines = render(&grid, 1, 2);
    assert_eq!(lines, vec![vec![cell(9, Some(7), Glyph::LowerHalf)]]);
}

#[test]
fn odd_height_gets_a_foreground_only_last_line() {
    // 2 columns, 3 rows: ceil(3/2) = 2 lines; the unpaired last row keeps
    // only a foreground color and the full block.
    let grid: Vec<usize> = vec![0, 1, 2, 3, 4, 5];
    let lines = render(&grid, 2, 3);
    assert_eq!(lines.len(), 2);
    assert_eq!(
        lines[0],
        vec![cell(2, Some(0), Glyph::LowerHalf), cell(3, Some(1), Glyph::LowerHalf)]
    );
    assert_eq!(
        lines[1],
        vec![cell(4, None, Glyph::FullBlock), cell(5, None, Glyph::FullBlock)]
    );
}

#[test]
fn single_row_renders_one_full_block_line() {
    let grid: Vec<usize> = vec![11, 22, 33];
    let lines = render(&grid, 3, 1);
    assert_eq!(
        lines,
        vec![vec![
            cell(11, None, Glyph::FullBlock),
            cell(22, None, Glyph::FullBlock),
            cell(33, None, Glyph::FullBlock),
        ]]
    );
}

#[test]
fn four_rows_make_two_paired_lines() {
    // 1 column, 4 rows.
    let grid: Vec<usize> = vec![10, 20, 30, 40];
    let lines = render(&grid, 1, 4);
    assert_eq!(
        lines,
        vec![
            vec![cell(20, Some(10), Glyph::LowerHalf)],
            vec![cell(40, Some(30), Glyph::LowerHalf)],
        ]
    );
}
