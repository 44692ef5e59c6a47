use pic2term::geometry::{resolve, Geometry};

#[test]
fn both_sizes_given_height_doubled() {
    // Explicit width and height: taken as-is, rows doubled, aspect ignored.
    assert_eq!(
        resolve(2, 1, Some(10), Some(7), None),
        Some(Geometry { width: 10, height: 14 })
    );
}

#[test]
fn width_only_matches_aspect() {
    // Aspect 2.0, width 10: height = floor(10 / 2.0) = 5, undoubled.
    assert_eq!(
        resolve(2, 1, Some(10), None, None),
        Some(Geometry { width: 10, height: 5 })
    );
}

#[test]
fn width_only_fractional_aspect() {
    // Aspect 3/2, width 10: height = floor(10 * 2 / 3) = 6.
    assert_eq!(
        resolve(3, 2, Some(10), None, None),
        Some(Geometry { width: 10, height: 6 })
    );
}

#[test]
fn height_only_doubled_then_scaled() {
    // Height 5 rows -> 10 half-cells; width = floor(10 * 2.0) = 20.
    assert_eq!(
        resolve(2, 1, None, Some(5), None),
        Some(Geometry { width: 20, height: 10 })
    );
}

#[test]
fn terminal_square_height_limits() {
    // Terminal 80x24: doubled rows = 48 < 80 columns, so height limits;
    // width = floor(48 * 1.0) = 48 fits.
    assert_eq!(
        resolve(1, 1, None, None, Some((80, 24))),
        Some(Geometry { width: 48, height: 48 })
    );
}

#[test]
fn no_hints_and_no_terminal_is_unresolved() {
    assert_eq!(resolve(7, 3, None, None, None), None);
    assert_eq!(resolve(1, 1, None, None, None), None);
}

#[test]
fn terminal_width_limits_with_shrink() {
    // Aspect 1/10 (tall), terminal 10x40: doubled rows = 80, columns 10 < 80.
    // Rescaled height = floor(10 * 10 / 1) = 100 > 80, so shrink:
    // width = floor(10 * 80 / 100) = 8, height = 80.
    assert_eq!(
        resolve(1, 10, None, None, Some((10, 40))),
        Some(Geometry { width: 8, height: 80 })
    );
}

#[test]
fn terminal_height_limits_with_shrink() {
    // Aspect 10 (wide), terminal 30x10: doubled rows = 20 <= 30 columns.
    // Rescaled width = floor(20 * 10) = 200 > 30, so shrink:
    // height = floor(20 * 30 / 200) = 3, width = 30.
    assert_eq!(
        resolve(10, 1, None, None, Some((30, 10))),
        Some(Geometry { width: 30, height: 3 })
    );
}

#[test]
fn terminal_height_limits_without_shrink() {
    // Aspect 2, terminal 100x24: doubled rows = 48 <= 100; rescaled width
    // = floor(48 * 2) = 96 <= 100, kept as computed.
    assert_eq!(
        resolve(2, 1, None, None, Some((100, 24))),
        Some(Geometry { width: 96, height: 48 })
    );
}
