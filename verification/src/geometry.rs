//! Output-geometry negotiation: how many pixels the resampled image should
//! have, given the image's aspect ratio, optional size requests, and the
//! terminal grid.
//!
//! Heights are counted in half-cells: one terminal row shows two image rows
//! through the lower-half-block glyph, so a height given in rows is doubled
//! before it is used as a pixel height.

use vstd::prelude::*;

verus! {

/// A resolved target size in pixel units. The height counts half-cells, so
/// it is the doubled row count whenever it came from a row count.
#[derive(Clone, Copy, PartialEq, Eq, Structural, Debug)]
pub struct Geometry {
    pub width: u64,
    pub height: u64,
}

/// The mathematical account of [`resolve`]. The aspect ratio is the exact
/// rational `num / den`; every truncation is an integer floor.
///
/// In priority order:
/// - both sizes requested: take them, doubling the height;
/// - only a width: height is `floor(width / aspect)`, undoubled;
/// - only a height: double it, then width is `floor(height * aspect)`;
/// - neither: fit the aspect ratio inside the terminal grid (with doubled
///   rows), scaling from the smaller axis and shrinking uniformly if the
///   computed axis overshoots its bound; with no grid either, fail.
pub open spec fn resolve_spec(
    num: int,
    den: int,
    desired_w: Option<u16>,
    desired_h: Option<u16>,
    terminal: Option<(u16, u16)>,
) -> Option<(int, int)> {
    match (desired_w, desired_h) {
        (Some(w), Some(h)) => Some((w as int, 2 * h)),
        (Some(w), None) => Some((w as int, w * den / num)),
        (None, Some(h)) => Some((2 * h * num / den, 2 * h)),
        (None, None) => match terminal {
            None => None,
            Some((cols, rows)) => {
                let w = cols as int;
                let h = 2 * rows;
                if w < h {
                    let rescaled_h = w * den / num;
                    if rescaled_h > h {
                        Some((w * h / rescaled_h, h))
                    } else {
                        Some((w, rescaled_h))
                    }
                } else {
                    let rescaled_w = h * num / den;
                    if rescaled_w > w {
                        Some((w, h * w / rescaled_w))
                    } else {
                        Some((rescaled_w, h))
                    }
                }
            },
        },
    }
}

/// Computes the target pixel size. `num / den` is the image's aspect ratio
/// (its width over its height); `desired_w` and `desired_h` are requested
/// column and row counts; `terminal` is the detected grid as
/// `(columns, rows)`. Fails exactly when no size was requested and no
/// terminal grid is available.
pub fn resolve(
    num: u32,
    den: u32,
    desired_w: Option<u16>,
    desired_h: Option<u16>,
    terminal: Option<(u16, u16)>,
) -> (r: Option<Geometry>)
    requires
        num > 0,
        den > 0,
    ensures
        match r {
            Some(g) => resolve_spec(num as int, den as int, desired_w, desired_h, terminal)
                == Some((g.width as int, g.height as int)),
            None => resolve_spec(num as int, den as int, desired_w, desired_h, terminal)
                is None,
        },
        r is None <==> desired_w is None && desired_h is None && terminal is None,
{
    let num64 = num as u64;
    let den64 = den as u64;
    match (desired_w, desired_h) {
        (Some(w), Some(h)) => Some(Geometry { width: w as u64, height: 2 * (h as u64) }),
        (Some(w), None) => {
            assert((w as u64) * den64 <= 65535 * 0xffff_ffffu64) by (nonlinear_arith)
                requires
                    w as u64 <= 65535,
                    den64 <= 0xffff_ffffu64,
            ;
            let prod = (w as u64) * den64;
            Some(Geometry { width: w as u64, height: prod / num64 })
        },
        (None, Some(h)) => {
            let doubled = 2 * (h as u64);
            assert(doubled * num64 <= 131070 * 0xffff_ffffu64) by (nonlinear_arith)
                requires
                    doubled <= 131070,
                    num64 <= 0xffff_ffffu64,
            ;
            let prod = doubled * num64;
            Some(Geometry { width: prod / den64, height: doubled })
        },
        (None, None) => match terminal {
            None => None,
            Some((cols, rows)) => {
                let w = cols as u64;
                let h = 2 * (rows as u64);
                if w < h {
                    assert(w * den64 <= 65535 * 0xffff_ffffu64) by (nonlinear_arith)
                        requires
                            w <= 65535,
                            den64 <= 0xffff_ffffu64,
                    ;
                    let rescaled_h = (w * den64) / num64;
                    if rescaled_h > h {
                        assert(w * h <= 65535 * 131070u64) by (nonlinear_arith)
                            requires
                                w <= 65535,
                                h <= 131070,
                        ;
                        Some(Geometry { width: (w * h) / rescaled_h, height: h })
                    } else {
                        Some(Geometry { width: w, height: rescaled_h })
                    }
                } else {
                    assert(h * num64 <= 131070 * 0xffff_ffffu64) by (nonlinear_arith)
                        requires
                            h <= 131070,
                            num64 <= 0xffff_ffffu64,
                    ;
                    let rescaled_w = (h * num64) / den64;
                    if rescaled_w > w {
                        assert(h * w <= 131070 * 65535u64) by (nonlinear_arith)
                            requires
                                h <= 131070,
                                w <= 65535,
                        ;
                        Some(Geometry { width: w, height: (h * w) / rescaled_w })
                    } else {
                        Some(Geometry { width: rescaled_w, height: h })
                    }
                }
            },
        },
    }
}

} // verus!
