//! Error-diffusion dithering: quantizes every pixel of a buffer to the
//! nearest entry of a 256-color palette, in strict raster order, and spreads
//! each pixel's quantization residual forward onto not-yet-visited
//! neighbors.
//!
//! The whole process is modeled at the specification level: `dither_state`
//! gives the buffer contents after any number of steps, and `dither_index`
//! the palette index the step emits. The executable [`dither`] is proved to
//! compute exactly that sequence of indices.

use vstd::prelude::*;

use crate::pixel::{dist2, lemma_dist2_zero, Pixel, PixelBuffer};

verus! {

// ----------------------------------------------------------------------
// Nearest-color matching
// ----------------------------------------------------------------------

/// The index of the palette entry nearest to `p` among the first `n`
/// entries, ties resolved to the lowest index: a later entry displaces an
/// earlier one only when strictly nearer.
pub open spec fn nearest_upto(p: Pixel, pal: Seq<Pixel>, n: nat) -> int
    decreases n,
{
    if n <= 1 {
        0
    } else {
        let best = nearest_upto(p, pal, (n - 1) as nat);
        if dist2(p, pal[n - 1]) < dist2(p, pal[best]) {
            n - 1
        } else {
            best
        }
    }
}

/// The index of the palette entry nearest to `p`, lowest index winning ties.
pub open spec fn nearest_index(p: Pixel, pal: Seq<Pixel>) -> int {
    nearest_upto(p, pal, pal.len())
}

proof fn lemma_nearest_upto_minimal(p: Pixel, pal: Seq<Pixel>, n: nat)
    requires
        1 <= n <= pal.len(),
    ensures
        0 <= nearest_upto(p, pal, n) < n,
        forall|j: int|
            0 <= j < n ==> dist2(p, pal[nearest_upto(p, pal, n)]) <= #[trigger] dist2(
                p,
                pal[j],
            ),
        forall|j: int|
            0 <= j < nearest_upto(p, pal, n) ==> #[trigger] dist2(p, pal[j]) > dist2(
                p,
                pal[nearest_upto(p, pal, n)],
            ),
    decreases n,
{
    if n > 1 {
        lemma_nearest_upto_minimal(p, pal, (n - 1) as nat);
    }
}

/// The selection law of nearest-color matching: the chosen index points at
/// an entry no farther from `p` than any other entry, and every entry at a
/// lower index is strictly farther, so of equidistant entries the lowest
/// index wins.
pub proof fn lemma_nearest_minimal(p: Pixel, pal: Seq<Pixel>)
    requires
        pal.len() >= 1,
    ensures
        0 <= nearest_index(p, pal) < pal.len(),
        forall|j: int|
            0 <= j < pal.len() ==> dist2(p, pal[nearest_index(p, pal)]) <= #[trigger] dist2(
                p,
                pal[j],
            ),
        forall|j: int|
            0 <= j < nearest_index(p, pal) ==> #[trigger] dist2(p, pal[j]) > dist2(
                p,
                pal[nearest_index(p, pal)],
            ),
{
    lemma_nearest_upto_minimal(p, pal, pal.len());
}

/// Exact squared color distance, computed without overflow: each channel
/// difference is at most 255 in magnitude, so the sum is at most 3 * 255^2.
fn dist2_exec(p: &Pixel, q: &Pixel) -> (d: u32)
    ensures
        d == dist2(*p, *q),
{
    let dr = p.r as i32 - q.r as i32;
    let dg = p.g as i32 - q.g as i32;
    let db = p.b as i32 - q.b as i32;
    proof {
        assert(0 <= dr * dr <= 65025 && 0 <= dg * dg <= 65025 && 0 <= db * db <= 65025)
            by (nonlinear_arith)
            requires
                -255 <= dr <= 255,
                -255 <= dg <= 255,
                -255 <= db <= 255,
        ;
    }
    (dr * dr + dg * dg + db * db) as u32
}

/// Scans the palette once and returns the index of the nearest entry,
/// keeping the first of any run of equally near entries.
pub fn nearest_color_index(p: &Pixel, palette: &Vec<Pixel>) -> (i: usize)
    requires
        palette@.len() >= 1,
    ensures
        i < palette@.len(),
        i == nearest_index(*p, palette@),
{
    let mut best: usize = 0;
    let mut best_d: u32 = dist2_exec(p, &palette[0]);
    let mut j: usize = 1;
    while j < palette.len()
        invariant
            1 <= j <= palette@.len(),
            best == nearest_upto(*p, palette@, j as nat),
            best < j,
            best_d == dist2(*p, palette@[best as int]),
        decreases palette@.len() - j,
    {
        let d = dist2_exec(p, &palette[j]);
        if d < best_d {
            best = j;
            best_d = d;
        }
        j += 1;
    }
    best
}

// ----------------------------------------------------------------------
// The diffusion kernel
// ----------------------------------------------------------------------

/// The propagation kernel: `(dx, dy, weight)` triples, relative to the
/// current pixel, over the common denominator 48. Every target lies ahead
/// of the current raster position (`dy >= 1`, or `dy == 0` with `dx >= 1`),
/// so a pixel is never revisited once quantized.
pub open spec fn kernel() -> Seq<(int, int, int)> {
    seq![
        (1, 0, 7),
        (2, 0, 5),
        (-2, 1, 3),
        (-1, 1, 5),
        (0, 1, 7),
        (1, 1, 5),
        (2, 1, 3),
        (-2, 2, 1),
        (-1, 2, 3),
        (0, 2, 5),
        (1, 2, 3),
        (2, 2, 1),
    ]
}

/// The sum of the weights of the first `n` kernel entries.
pub open spec fn kernel_weight_sum(n: nat) -> int
    decreases n,
{
    if n == 0 {
        0
    } else {
        kernel_weight_sum((n - 1) as nat) + kernel()[n - 1].2
    }
}

/// The kernel redistributes the residual exactly: its twelve weights sum to
/// the common denominator 48, so no error is lost or invented.
pub proof fn lemma_kernel_weights_sum_to_48()
    ensures
        kernel().len() == 12,
        kernel_weight_sum(kernel().len()) == 48,
{
    reveal_with_fuel(kernel_weight_sum, 13);
}

/// One channel after receiving a share of a residual: the share is
/// `residual * weight / 48` with truncating integer division, and the sum is
/// clamped to the channel range rather than wrapped.
pub open spec fn trunc_div_48(v: int) -> int {
    if v >= 0 {
        v / 48
    } else {
        -((-v) / 48)
    }
}

/// Saturating clamp of a channel value to `[0, 255]`.
pub open spec fn clamp_channel(v: int) -> int {
    if v < 0 {
        0
    } else if v > 255 {
        255
    } else {
        v
    }
}

/// The new value of one channel holding `c` after a residual `r` arrives
/// with weight `w`.
pub open spec fn diffused_channel(c: int, r: int, w: int) -> int {
    clamp_channel(c + trunc_div_48(r * w))
}

/// The per-channel signed residual of quantizing `p` to the palette entry
/// `q`: what nearest-color matching failed to represent.
pub open spec fn residual(p: Pixel, q: Pixel) -> (int, int, int) {
    (p.r - q.r, p.g - q.g, p.b - q.b)
}

/// The buffer after one kernel entry `e` spreads the residual `res` of the
/// pixel at `(x, y)`: the target `(x + e.0, y + e.1)` takes its share of
/// every channel, and a target outside the buffer is skipped.
pub open spec fn apply_entry(
    buf: Seq<Pixel>,
    w: int,
    h: int,
    x: int,
    y: int,
    res: (int, int, int),
    e: (int, int, int),
) -> Seq<Pixel> {
    let xn = x + e.0;
    let yn = y + e.1;
    if 0 <= xn < w && 0 <= yn < h {
        let i = yn * w + xn;
        let old_p = buf[i];
        buf.update(
            i,
            (Pixel {
                r: diffused_channel(old_p.r as int, res.0, e.2) as u8,
                g: diffused_channel(old_p.g as int, res.1, e.2) as u8,
                b: diffused_channel(old_p.b as int, res.2, e.2) as u8,
            }),
        )
    } else {
        buf
    }
}

/// The buffer after the first `n` kernel entries have spread `res`.
pub open spec fn diffuse_upto(
    buf: Seq<Pixel>,
    w: int,
    h: int,
    x: int,
    y: int,
    res: (int, int, int),
    n: nat,
) -> Seq<Pixel>
    decreases n,
{
    if n == 0 {
        buf
    } else {
        apply_entry(
            diffuse_upto(buf, w, h, x, y, res, (n - 1) as nat),
            w,
            h,
            x,
            y,
            res,
            kernel()[n - 1],
        )
    }
}

/// The buffer after the whole kernel has spread the residual `res` of the
/// pixel at `(x, y)`.
pub open spec fn diffuse(
    buf: Seq<Pixel>,
    w: int,
    h: int,
    x: int,
    y: int,
    res: (int, int, int),
) -> Seq<Pixel> {
    diffuse_upto(buf, w, h, x, y, res, kernel().len())
}

proof fn lemma_diffuse_upto_len(
    buf: Seq<Pixel>,
    w: int,
    h: int,
    x: int,
    y: int,
    res: (int, int, int),
    n: nat,
)
    requires
        buf.len() == w * h,
    ensures
        diffuse_upto(buf, w, h, x, y, res, n).len() == buf.len(),
    decreases n,
{
    if n > 0 {
        lemma_diffuse_upto_len(buf, w, h, x, y, res, (n - 1) as nat);
        let prev = diffuse_upto(buf, w, h, x, y, res, (n - 1) as nat);
        let e = kernel()[n - 1];
        let xn = x + e.0;
        let yn = y + e.1;
        if 0 <= xn < w && 0 <= yn < h {
            assert(0 <= yn * w + xn < h * w) by (nonlinear_arith)
                requires
                    0 <= xn < w,
                    0 <= yn < h,
            ;
            assert(h * w == w * h) by (nonlinear_arith);
        }
    }
}

/// One channel update, saturating: `c + r * w / 48` with truncating
/// division, clamped to the channel range.
fn add_share(c: u8, r: i32, w: u8) -> (nc: u8)
    requires
        -255 <= r <= 255,
        1 <= w <= 7,
    ensures
        nc == diffused_channel(c as int, r as int, w as int),
{
    proof {
        assert(-1785 <= r * (w as i32) <= 1785) by (nonlinear_arith)
            requires
                -255 <= r <= 255,
                1 <= w as i32 <= 7,
        ;
    }
    let prod = r * (w as i32);
    let share: i32 = if prod >= 0 {
        ((prod as u32) / 48) as i32
    } else {
        -(((-prod) as u32 / 48) as i32)
    };
    let sum = c as i32 + share;
    if sum < 0 {
        0
    } else if sum > 255 {
        255
    } else {
        sum as u8
    }
}

/// Returns the entries of the kernel in order, as executable values.
pub fn kernel_entry(k: usize) -> (e: (i32, i32, u8))
    requires
        k < 12,
    ensures
        (e.0 as int, e.1 as int, e.2 as int) == kernel()[k as int],
        -2 <= e.0 <= 2,
        0 <= e.1 <= 2,
        1 <= e.2 <= 7,
{
    match k {
        0 => (1, 0, 7),
        1 => (2, 0, 5),
        2 => (-2, 1, 3),
        3 => (-1, 1, 5),
        4 => (0, 1, 7),
        5 => (1, 1, 5),
        6 => (2, 1, 3),
        7 => (-2, 2, 1),
        8 => (-1, 2, 3),
        9 => (0, 2, 5),
        10 => (1, 2, 3),
        _ => (2, 2, 1),
    }
}

/// Spreads the residual `(rr, rg, rb)` of the pixel at `(x, y)` over the
/// whole kernel, in place.
fn apply_kernel(
    pixels: &mut Vec<Pixel>,
    w: usize,
    h: usize,
    x: usize,
    y: usize,
    rr: i32,
    rg: i32,
    rb: i32,
)
    requires
        old(pixels)@.len() == w * h,
        x < w,
        y < h,
        -255 <= rr <= 255,
        -255 <= rg <= 255,
        -255 <= rb <= 255,
    ensures
        final(pixels)@ == diffuse(
            old(pixels)@,
            w as int,
            h as int,
            x as int,
            y as int,
            (rr as int, rg as int, rb as int),
        ),
{
    let ghost buf0 = pixels@;
    let ghost res = (rr as int, rg as int, rb as int);
    let mut k: usize = 0;
    while k < 12
        invariant
            k <= 12,
            x < w,
            y < h,
            -255 <= rr <= 255,
            -255 <= rg <= 255,
            -255 <= rb <= 255,
            buf0.len() == w * h,
            res == (rr as int, rg as int, rb as int),
            pixels@ == diffuse_upto(buf0, w as int, h as int, x as int, y as int, res, k as nat),
        decreases 12 - k,
    {
        proof {
            lemma_diffuse_upto_len(buf0, w as int, h as int, x as int, y as int, res, k as nat);
        }
        let e = kernel_entry(k);
        let (dx, dy, wt) = e;
        let mut xn: usize = 0;
        let mut x_ok: bool = false;
        if dx >= 0 {
            let m = dx as usize;
            if m < w - x {
                xn = x + m;
                x_ok = true;
            }
        } else {
            let m = (-dx) as usize;
            if m <= x {
                xn = x - m;
                x_ok = true;
            }
        }
        let mut yn: usize = 0;
        let mut y_ok: bool = false;
        let md = dy as usize;
        if md < h - y {
            yn = y + md;
            y_ok = true;
        }
        if x_ok && y_ok {
            let cur_len = pixels.len();
            proof {
                assert(yn * w + xn < h * w) by (nonlinear_arith)
                    requires
                        xn < w,
                        yn < h,
                ;
                assert(h * w == w * h) by (nonlinear_arith);
                assert(cur_len == w * h);
            }
            let idx = yn * w + xn;
            let old_p = pixels[idx];
            let np = Pixel {
                r: add_share(old_p.r, rr, wt),
                g: add_share(old_p.g, rg, wt),
                b: add_share(old_p.b, rb, wt),
            };
            pixels.set(idx, np);
        }
        k += 1;
    }
}

// ----------------------------------------------------------------------
// The dithering process
// ----------------------------------------------------------------------

/// The buffer contents after the first `t` pixels, in raster order, have
/// been quantized and their residuals spread. Step `t - 1` works on raster
/// position `t - 1`, that is column `(t - 1) % w` of row `(t - 1) / w`.
pub open spec fn dither_state(
    buf0: Seq<Pixel>,
    w: int,
    h: int,
    pal: Seq<Pixel>,
    t: nat,
) -> Seq<Pixel>
    decreases t,
{
    if t == 0 {
        buf0
    } else {
        let prev = dither_state(buf0, w, h, pal, (t - 1) as nat);
        let pos = t - 1;
        let p = prev[pos];
        let chosen = pal[nearest_index(p, pal)];
        diffuse(prev, w, h, pos % w, pos / w, residual(p, chosen))
    }
}

/// The palette index that the step at raster position `pos` records: the
/// entry nearest to the pixel as it stands when the scan reaches it, all
/// upstream residual shares already applied.
pub open spec fn dither_index(buf0: Seq<Pixel>, w: int, h: int, pal: Seq<Pixel>, pos: int) -> int {
    nearest_index(dither_state(buf0, w, h, pal, pos as nat)[pos], pal)
}

proof fn lemma_dither_state_len(buf0: Seq<Pixel>, w: int, h: int, pal: Seq<Pixel>, t: nat)
    requires
        buf0.len() == w * h,
    ensures
        dither_state(buf0, w, h, pal, t).len() == buf0.len(),
    decreases t,
{
    if t > 0 {
        lemma_dither_state_len(buf0, w, h, pal, (t - 1) as nat);
        let prev = dither_state(buf0, w, h, pal, (t - 1) as nat);
        let pos = t - 1;
        let p = prev[pos];
        let chosen = pal[nearest_index(p, pal)];
        lemma_diffuse_upto_len(
            prev,
            w,
            h,
            pos % w,
            pos / w,
            residual(p, chosen),
            kernel().len(),
        );
    }
}

/// Quantizes the whole buffer to the palette: visits every pixel in raster
/// order, records the index of the nearest palette entry, and spreads the
/// residual over the kernel. The result holds one index per pixel, in
/// raster order, and is exactly the sequence that the specification-level
/// process `dither_index` emits; in particular it is fully determined by
/// the buffer contents and the palette.
pub fn dither(buf: PixelBuffer, palette: &Vec<Pixel>) -> (res: Vec<usize>)
    requires
        buf.wf(),
        palette@.len() == 256,
    ensures
        res@.len() == buf.width * buf.height,
        forall|j: int|
            0 <= j < res@.len() ==> res@[j] < 256 && res@[j] == dither_index(
                buf.pixels@,
                buf.width as int,
                buf.height as int,
                palette@,
                j,
            ),
{
    let PixelBuffer { pixels: mut pixels, width: w, height: h } = buf;
    let ghost buf0 = pixels@;
    let len = pixels.len();
    let mut res: Vec<usize> = Vec::new();
    let mut pos: usize = 0;
    while pos < len
        invariant
            len == w * h,
            w == buf.width,
            h == buf.height,
            w > 0,
            h > 0,
            pos <= len,
            palette@.len() == 256,
            buf0 == buf.pixels@,
            buf0.len() == len,
            pixels@ == dither_state(buf0, w as int, h as int, palette@, pos as nat),
            res@.len() == pos,
            forall|j: int|
                0 <= j < pos ==> res@[j] < 256 && res@[j] == dither_index(
                    buf0,
                    w as int,
                    h as int,
                    palette@,
                    j,
                ),
        decreases len - pos,
    {
        proof {
            lemma_dither_state_len(buf0, w as int, h as int, palette@, pos as nat);
        }
        let x = pos % w;
        let y = pos / w;
        let p = pixels[pos];
        let i = nearest_color_index(&p, palette);
        res.push(i);
        let chosen = palette[i];
        let rr = p.r as i32 - chosen.r as i32;
        let rg = p.g as i32 - chosen.g as i32;
        let rb = p.b as i32 - chosen.b as i32;
        proof {
            assert(y < h && y * w + x == pos) by (nonlinear_arith)
                requires
                    w > 0,
                    pos < w * h,
                    x == (pos as int) % (w as int),
                    y == (pos as int) / (w as int),
            ;
        }
        apply_kernel(&mut pixels, w, h, x, y, rr, rg, rb);
        pos += 1;
    }
    res
}

// ----------------------------------------------------------------------
// Laws of the process
// ----------------------------------------------------------------------

proof fn lemma_nearest_of_exact(pal: Seq<Pixel>, k: int)
    requires
        0 <= k < pal.len(),
        forall|j: int| 0 <= j < k ==> pal[j] != pal[k],
    ensures
        nearest_index(pal[k], pal) == k,
{
    lemma_nearest_minimal(pal[k], pal);
    let i = nearest_index(pal[k], pal);
    lemma_dist2_zero(pal[k], pal[k]);
    assert(dist2(pal[k], pal[i]) <= dist2(pal[k], pal[k]));
    lemma_dist2_zero(pal[k], pal[i]);
    if i < k {
        assert(pal[i] == pal[k]);
    } else if i > k {
        assert(dist2(pal[k], pal[k]) > dist2(pal[k], pal[i]));
    }
}

proof fn lemma_diffuse_upto_zero(buf: Seq<Pixel>, w: int, h: int, x: int, y: int, n: nat)
    requires
        buf.len() == w * h,
    ensures
        diffuse_upto(buf, w, h, x, y, (0int, 0int, 0int), n) == buf,
    decreases n,
{
    if n > 0 {
        lemma_diffuse_upto_zero(buf, w, h, x, y, (n - 1) as nat);
        let e = kernel()[n - 1];
        let xn = x + e.0;
        let yn = y + e.1;
        if 0 <= xn < w && 0 <= yn < h {
            assert(0 <= yn * w + xn < h * w) by (nonlinear_arith)
                requires
                    0 <= xn < w,
                    0 <= yn < h,
            ;
            assert(h * w == w * h) by (nonlinear_arith);
            let i = yn * w + xn;
            let old_p = buf[i];
            assert(diffused_channel(old_p.r as int, 0, e.2) == old_p.r as int);
            assert(diffused_channel(old_p.g as int, 0, e.2) == old_p.g as int);
            assert(diffused_channel(old_p.b as int, 0, e.2) == old_p.b as int);
            assert(buf.update(i, buf[i]) =~= buf);
        }
    }
}

proof fn lemma_uniform_state(
    buf0: Seq<Pixel>,
    w: int,
    h: int,
    pal: Seq<Pixel>,
    k: int,
    t: nat,
)
    requires
        buf0.len() == w * h,
        t <= w * h,
        0 <= k < pal.len(),
        forall|q: int| 0 <= q < buf0.len() ==> buf0[q] == pal[k],
        forall|j: int| 0 <= j < k ==> pal[j] != pal[k],
    ensures
        dither_state(buf0, w, h, pal, t) == buf0,
    decreases t,
{
    if t > 0 {
        lemma_uniform_state(buf0, w, h, pal, k, (t - 1) as nat);
        let pos = t - 1;
        let p = buf0[pos];
        lemma_nearest_of_exact(pal, k);
        assert(residual(p, pal[nearest_index(p, pal)]) == (0int, 0int, 0int));
        lemma_diffuse_upto_zero(buf0, w, h, pos % w, pos / w, kernel().len());
    }
}

/// Quantizing a uniform image whose color sits in the palette perturbs
/// nothing: with every pixel equal to palette entry `k`, and no entry below
/// `k` holding the same color, every residual is zero, the buffer never
/// changes, and every recorded index is `k`. (With a duplicate of the color
/// below `k`, the matcher would record that lower index instead.)
pub proof fn lemma_uniform_exact_match(
    buf0: Seq<Pixel>,
    w: int,
    h: int,
    pal: Seq<Pixel>,
    k: int,
)
    requires
        buf0.len() == w * h,
        0 <= k < pal.len(),
        forall|q: int| 0 <= q < buf0.len() ==> buf0[q] == pal[k],
        forall|j: int| 0 <= j < k ==> pal[j] != pal[k],
    ensures
        forall|t: nat| t <= w * h ==> dither_state(buf0, w, h, pal, t) == buf0,
        forall|pos: int| 0 <= pos < w * h ==> dither_index(buf0, w, h, pal, pos) == k,
{
    assert forall|t: nat| t <= w * h implies dither_state(buf0, w, h, pal, t) == buf0 by {
        lemma_uniform_state(buf0, w, h, pal, k, t);
    }
    assert forall|pos: int| 0 <= pos < w * h implies dither_index(buf0, w, h, pal, pos)
        == k by {
        lemma_uniform_state(buf0, w, h, pal, k, pos as nat);
        lemma_nearest_of_exact(pal, k);
    }
}

/// The selection law, read off the whole process: at every raster position
/// the recorded index points at a palette entry nearest to the pixel as it
/// stood when the scan reached it, and of equally near entries the lowest
/// index is recorded.
pub proof fn lemma_dither_selects_nearest(
    buf0: Seq<Pixel>,
    w: int,
    h: int,
    pal: Seq<Pixel>,
    pos: int,
)
    requires
        buf0.len() == w * h,
        pal.len() >= 1,
        0 <= pos < w * h,
    ensures
        ({
            let p = dither_state(buf0, w, h, pal, pos as nat)[pos];
            let i = dither_index(buf0, w, h, pal, pos);
            &&& 0 <= i < pal.len()
            &&& forall|j: int| 0 <= j < pal.len() ==> dist2(p, pal[i]) <= #[trigger] dist2(p, pal[j])
            &&& forall|j: int| 0 <= j < i ==> #[trigger] dist2(p, pal[j]) > dist2(p, pal[i])
        }),
{
    let p = dither_state(buf0, w, h, pal, pos as nat)[pos];
    lemma_nearest_minimal(p, pal);
}

} // verus!
