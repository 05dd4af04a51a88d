//! A raster canvas for fast in-memory drawing and comparison.
//!
//! The buffer is a flat, row-major, channel-interleaved vector of byte
//! intensities of length `width * height * depth`. Compositing writes
//! the color channels of one pixel in place; all out-of-range addressing
//! is a defensive no-op, never a panic.

use vstd::prelude::*;
use crate::color::{
    Color, OPACITY_SCALE, color_add, spec_color_add, lemma_color_add_range,
    lemma_color_add_boundary,
};

verus! {

/// The mathematical value of a canvas: its dimensions and the sequence
/// of byte intensities in its buffer.
#[verifier::ext_equal]
pub ghost struct CanvasModel {
    pub width: int,
    pub height: int,
    pub depth: int,
    pub pixels: Seq<u8>,
}

/// How many of a pixel's channels compositing writes: the single
/// channel of a grayscale canvas, or the three color channels.
pub open spec fn chans(depth: int) -> int {
    if depth == 1 {
        1
    } else {
        3
    }
}

/// The channel intensity a color contributes at channel offset `ch`.
pub open spec fn channel_of(color: Color, ch: int) -> u8 {
    if ch == 0 {
        color.r
    } else if ch == 1 {
        color.g
    } else {
        color.b
    }
}

impl CanvasModel {
    /// Dimensions are positive, the depth is a channel count the raster
    /// formats use, the buffer length is exactly `width * height *
    /// depth`, and pixel indices fit in an `i32`.
    pub open spec fn wf(self) -> bool {
        &&& 1 <= self.width
        &&& 1 <= self.height
        &&& (self.depth == 1 || self.depth == 3 || self.depth == 4)
        &&& self.pixels.len() == self.width * self.height * self.depth
        &&& self.width * self.height * self.depth <= 0x3fff_ffff
    }

    /// Index of the first channel of the pixel at `(x, y)`.
    pub open spec fn pix_index(self, x: int, y: int) -> int {
        (y * self.width + x) * self.depth
    }

    /// Whether `(x, y)` addresses a pixel inside the canvas.
    pub open spec fn in_canvas(self, x: int, y: int) -> bool {
        0 <= x < self.width && 0 <= y < self.height
    }
}

/// A zero-filled canvas model of the given dimensions.
pub open spec fn blank_model(width: int, height: int, depth: int) -> CanvasModel {
    CanvasModel {
        width,
        height,
        depth,
        pixels: Seq::new((width * height * depth) as nat, |i: int| 0u8),
    }
}

/// Alpha-composites `color` onto the pixel at `(x, y)`, or leaves the
/// canvas unchanged when `(x, y)` is out of range.
pub open spec fn composite_pixel(m: CanvasModel, x: int, y: int, color: Color) -> CanvasModel {
    if m.in_canvas(x, y) {
        let base = m.pix_index(x, y);
        let nch = chans(m.depth);
        CanvasModel {
            pixels: Seq::new(
                m.pixels.len(),
                |i: int|
                    if base <= i < base + nch {
                        spec_color_add(
                            m.pixels[i] as int,
                            channel_of(color, i - base) as int,
                            color.opacity as int,
                        ) as u8
                    } else {
                        m.pixels[i]
                    },
            ),
            ..m
        }
    } else {
        m
    }
}

/// Composites `color` onto the `n` pixels at `(x, y) .. (x + n - 1, y)`.
pub open spec fn composite_run(m: CanvasModel, x: int, n: nat, y: int, color: Color) -> CanvasModel
    decreases n,
{
    if n == 0 {
        m
    } else {
        composite_pixel(composite_run(m, x, (n - 1) as nat, y, color), x + n - 1, y, color)
    }
}

/// The effect of `line_add`: the run from `x1` to `x2` inclusive on row
/// `y`, clipped to the canvas, composited left to right.
pub open spec fn line_add_model(m: CanvasModel, x1: int, x2: int, y: int, color: Color) -> CanvasModel {
    if !(0 <= y < m.height) {
        m
    } else {
        let lo = if x1 > 0 {
            x1
        } else {
            0
        };
        let hi = if x2 < m.width - 1 {
            x2
        } else {
            m.width - 1
        };
        if hi < lo {
            m
        } else {
            composite_run(m, lo, (hi - lo + 1) as nat, y, color)
        }
    }
}

/// Compositing a run preserves dimensions and well-formedness.
pub proof fn lemma_composite_run_wf(m: CanvasModel, x: int, n: nat, y: int, color: Color)
    requires
        m.wf(),
    ensures
        composite_run(m, x, n, y, color).wf(),
        composite_run(m, x, n, y, color).width == m.width,
        composite_run(m, x, n, y, color).height == m.height,
        composite_run(m, x, n, y, color).depth == m.depth,
    decreases n,
{
    if n > 0 {
        lemma_composite_run_wf(m, x, (n - 1) as nat, y, color);
        lemma_composite_pixel_wf(composite_run(m, x, (n - 1) as nat, y, color), x + n - 1, y, color);
    }
}

/// A composited line preserves dimensions and well-formedness.
pub proof fn lemma_line_add_model_wf(m: CanvasModel, x1: int, x2: int, y: int, color: Color)
    requires
        m.wf(),
    ensures
        line_add_model(m, x1, x2, y, color).wf(),
        line_add_model(m, x1, x2, y, color).width == m.width,
        line_add_model(m, x1, x2, y, color).height == m.height,
        line_add_model(m, x1, x2, y, color).depth == m.depth,
{
    if 0 <= y < m.height {
        let lo = if x1 > 0 {
            x1
        } else {
            0
        };
        let hi = if x2 < m.width - 1 {
            x2
        } else {
            m.width - 1
        };
        if lo <= hi {
            lemma_composite_run_wf(m, lo, (hi - lo + 1) as nat, y, color);
        }
    }
}

/// Each dimension alone is bounded by the buffer's length bound.
pub proof fn lemma_wf_dims(m: CanvasModel)
    requires
        m.wf(),
    ensures
        m.width <= 0x3fff_ffff,
        m.height <= 0x3fff_ffff,
        m.depth <= 4,
{
    assert(m.width <= m.width * m.height * m.depth && m.height <= m.width * m.height * m.depth)
        by (nonlinear_arith)
        requires
            1 <= m.width,
            1 <= m.height,
            1 <= m.depth,
    ;
}

/// A pixel's channels start before the buffer's end, with room for the
/// whole pixel.
pub proof fn lemma_pix_index_bound(m: CanvasModel, x: int, y: int)
    requires
        m.wf(),
        m.in_canvas(x, y),
    ensures
        0 <= y * m.width,
        y * m.width + x + 1 <= m.width * m.height,
        m.width <= m.width * m.height,
        m.width * m.height <= m.width * m.height * m.depth,
        0 <= m.pix_index(x, y),
        m.pix_index(x, y) + m.depth <= m.pixels.len(),
{
    assert((y * m.width + x) * m.depth + m.depth <= m.width * m.height * m.depth
        && 0 <= y * m.width
        && y * m.width + x + 1 <= m.width * m.height
        && m.width <= m.width * m.height
        && m.width * m.height <= m.width * m.height * m.depth
        && 0 <= (y * m.width + x) * m.depth) by (nonlinear_arith)
        requires
            0 <= x < m.width,
            0 <= y < m.height,
            1 <= m.depth,
            1 <= m.width,
            1 <= m.height,
    ;
}

/// Compositing changes neither the dimensions nor the buffer length,
/// and so preserves well-formedness.
pub proof fn lemma_composite_pixel_wf(m: CanvasModel, x: int, y: int, color: Color)
    requires
        m.wf(),
    ensures
        composite_pixel(m, x, y, color).wf(),
        composite_pixel(m, x, y, color).width == m.width,
        composite_pixel(m, x, y, color).height == m.height,
        composite_pixel(m, x, y, color).depth == m.depth,
        composite_pixel(m, x, y, color).pixels.len() == m.pixels.len(),
{
}

/// Compositing boundary cases, on the whole pixel: a fully opaque
/// color replaces the pixel's channels outright, and doing so twice is
/// the same as doing it once; a fully transparent color leaves the
/// canvas unchanged.
pub proof fn lemma_composite_pixel_boundary(m: CanvasModel, x: int, y: int, color: Color)
    requires
        m.wf(),
        color.wf(),
    ensures
        color.opacity == OPACITY_SCALE && m.in_canvas(x, y) ==> forall|ch: int|
            0 <= ch < chans(m.depth) ==> composite_pixel(m, x, y, color).pixels[m.pix_index(x, y)
                + ch] == channel_of(color, ch),
        color.opacity == OPACITY_SCALE ==> composite_pixel(composite_pixel(m, x, y, color), x, y, color)
            == composite_pixel(m, x, y, color),
        color.opacity == 0 ==> composite_pixel(m, x, y, color) == m,
{
    if m.in_canvas(x, y) {
        lemma_pix_index_bound(m, x, y);
        if color.opacity == OPACITY_SCALE {
            assert forall|ch: int| 0 <= ch < chans(m.depth) implies composite_pixel(
                m,
                x,
                y,
                color,
            ).pixels[m.pix_index(x, y) + ch] == channel_of(color, ch) by {
                lemma_color_add_boundary(
                    m.pixels[m.pix_index(x, y) + ch] as int,
                    channel_of(color, ch) as int,
                );
            }
            let m1 = composite_pixel(m, x, y, color);
            assert forall|ch: int| 0 <= ch < chans(m.depth) implies composite_pixel(
                m1,
                x,
                y,
                color,
            ).pixels[m.pix_index(x, y) + ch] == channel_of(color, ch) by {
                lemma_color_add_boundary(
                    m1.pixels[m.pix_index(x, y) + ch] as int,
                    channel_of(color, ch) as int,
                );
            }
            assert(composite_pixel(m1, x, y, color) =~= m1);
        }
        if color.opacity == 0 {
            assert forall|i: int| 0 <= i < m.pixels.len() implies composite_pixel(
                m,
                x,
                y,
                color,
            ).pixels[i] == m.pixels[i] by {
                let base = m.pix_index(x, y);
                if base <= i < base + chans(m.depth) {
                    lemma_color_add_boundary(m.pixels[i] as int, channel_of(color, i - base) as int);
                }
            }
            assert(composite_pixel(m, x, y, color) =~= m);
        }
    }
}

/// Squared difference of two channel intensities.
pub open spec fn spec_sq_diff(a: int, b: int) -> int {
    (a - b) * (a - b)
}

/// Sum over all buffer positions of the squared difference of the
/// corresponding entries (zero on a length mismatch, which callers rule
/// out).
pub open spec fn diff_sum(a: Seq<u8>, b: Seq<u8>) -> int
    decreases a.len(),
{
    if a.len() == 0 || a.len() != b.len() {
        0
    } else {
        diff_sum(a.drop_last(), b.drop_last()) + spec_sq_diff(a.last() as int, b.last() as int)
    }
}

/// A squared channel difference lies in `0 ..= 255 * 255`.
pub proof fn lemma_sq_diff_bound(a: int, b: int)
    requires
        0 <= a <= 255,
        0 <= b <= 255,
    ensures
        0 <= spec_sq_diff(a, b) <= 65025,
{
    assert(0 <= (a - b) * (a - b) <= 65025) by (nonlinear_arith)
        requires
            0 <= a <= 255,
            0 <= b <= 255,
    ;
}

/// The distance sum is nonnegative and at most `255 * 255` per entry.
pub proof fn lemma_diff_sum_bound(a: Seq<u8>, b: Seq<u8>)
    ensures
        0 <= diff_sum(a, b) <= 65025 * a.len(),
    decreases a.len(),
{
    if a.len() == 0 || a.len() != b.len() {
    } else {
        lemma_diff_sum_bound(a.drop_last(), b.drop_last());
        lemma_sq_diff_bound(a.last() as int, b.last() as int);
    }
}

/// A canvas is at distance zero from itself.
pub proof fn lemma_diff_sum_self_zero(a: Seq<u8>)
    ensures
        diff_sum(a, a) == 0,
    decreases a.len(),
{
    if a.len() > 0 {
        lemma_diff_sum_self_zero(a.drop_last());
    }
}

/// The distance is symmetric in its two canvases.
pub proof fn lemma_diff_sum_symmetric(a: Seq<u8>, b: Seq<u8>)
    ensures
        diff_sum(a, b) == diff_sum(b, a),
    decreases a.len(),
{
    if a.len() == 0 || a.len() != b.len() {
    } else {
        lemma_diff_sum_symmetric(a.drop_last(), b.drop_last());
        assert(spec_sq_diff(a.last() as int, b.last() as int) == spec_sq_diff(
            b.last() as int,
            a.last() as int,
        )) by (nonlinear_arith);
    }
}

/// The color of the pixel at `(x, y)`: its stored channels read as an
/// opaque color, the single channel of a grayscale canvas standing for
/// all three; opaque black for out-of-range coordinates.
pub open spec fn spec_pixel_at(m: CanvasModel, x: int, y: int) -> Color {
    if m.in_canvas(x, y) {
        let base = m.pix_index(x, y);
        if m.depth == 1 {
            Color {
                r: m.pixels[base],
                g: m.pixels[base],
                b: m.pixels[base],
                opacity: OPACITY_SCALE,
            }
        } else {
            Color {
                r: m.pixels[base],
                g: m.pixels[base + 1],
                b: m.pixels[base + 2],
                opacity: OPACITY_SCALE,
            }
        }
    } else {
        Color { r: 0, g: 0, b: 0, opacity: OPACITY_SCALE }
    }
}

/// Squared color distance between the pixels at two coordinates.
pub open spec fn spec_pixel_diff_sq(m: CanvasModel, x1: int, y1: int, x2: int, y2: int) -> int {
    let p1 = spec_pixel_at(m, x1, y1);
    let p2 = spec_pixel_at(m, x2, y2);
    spec_sq_diff(p1.r as int, p2.r as int) + spec_sq_diff(p1.g as int, p2.g as int)
        + spec_sq_diff(p1.b as int, p2.b as int)
}

/// Sum of squared color distances from `(x, y)` to the `n` pixels of
/// column `px` at rows `ylo .. ylo + n`, the center pixel excluded.
pub open spec fn neighbors_col_sum(
    m: CanvasModel,
    x: int,
    y: int,
    px: int,
    ylo: int,
    n: nat,
) -> int
    decreases n,
{
    if n == 0 {
        0
    } else {
        neighbors_col_sum(m, x, y, px, ylo, (n - 1) as nat) + if !(px == x && ylo + n - 1 == y) {
            spec_pixel_diff_sq(m, x, y, px, ylo + n - 1)
        } else {
            0
        }
    }
}

/// Sum of squared color distances from `(x, y)` over the `ncols`
/// columns starting at `xlo`, each of `nrows` rows starting at `ylo`.
pub open spec fn neighbors_sum(
    m: CanvasModel,
    x: int,
    y: int,
    xlo: int,
    ncols: nat,
    ylo: int,
    nrows: nat,
) -> int
    decreases ncols,
{
    if ncols == 0 {
        0
    } else {
        neighbors_sum(m, x, y, xlo, (ncols - 1) as nat, ylo, nrows) + neighbors_col_sum(
            m,
            x,
            y,
            xlo + ncols - 1,
            ylo,
            nrows,
        )
    }
}

/// The neighborhood sum of `neighbors_diffsq`: every pixel other than
/// `(x, y)` within a square window of the given radius, clipped to the
/// canvas as the row and column loops clip.
pub open spec fn spec_neighbors_diffsq(m: CanvasModel, x: int, y: int, radius: int) -> int {
    let xlo = if x - radius > 0 {
        x - radius
    } else {
        0
    };
    let xhi = if x + radius < m.width {
        x + radius
    } else {
        m.width
    };
    let ylo = if y - radius > 0 {
        y - radius
    } else {
        0
    };
    let yhi = if y + radius < m.height {
        y + radius
    } else {
        m.height
    };
    if xhi <= xlo || yhi <= ylo {
        0
    } else {
        neighbors_sum(m, x, y, xlo, (xhi - xlo) as nat, ylo, (yhi - ylo) as nat)
    }
}

/// A column sum is nonnegative and bounded per row.
pub proof fn lemma_neighbors_col_sum_bound(
    m: CanvasModel,
    x: int,
    y: int,
    px: int,
    ylo: int,
    n: nat,
)
    ensures
        0 <= neighbors_col_sum(m, x, y, px, ylo, n) <= 195075 * n,
    decreases n,
{
    if n > 0 {
        lemma_neighbors_col_sum_bound(m, x, y, px, ylo, (n - 1) as nat);
        let p1 = spec_pixel_at(m, x, y);
        let p2 = spec_pixel_at(m, px, ylo + n - 1);
        lemma_sq_diff_bound(p1.r as int, p2.r as int);
        lemma_sq_diff_bound(p1.g as int, p2.g as int);
        lemma_sq_diff_bound(p1.b as int, p2.b as int);
    }
}

/// The window sum is nonnegative and bounded per cell.
pub proof fn lemma_neighbors_sum_bound(
    m: CanvasModel,
    x: int,
    y: int,
    xlo: int,
    ncols: nat,
    ylo: int,
    nrows: nat,
)
    ensures
        0 <= neighbors_sum(m, x, y, xlo, ncols, ylo, nrows) <= 195075 * ncols * nrows,
    decreases ncols,
{
    if ncols > 0 {
        lemma_neighbors_sum_bound(m, x, y, xlo, (ncols - 1) as nat, ylo, nrows);
        lemma_neighbors_col_sum_bound(m, x, y, xlo + ncols - 1, ylo, nrows);
        assert(195075 * ((ncols - 1) as nat) * nrows + 195075 * nrows == 195075 * ncols * nrows)
            by (nonlinear_arith)
            requires
                1 <= ncols,
        ;
    }
}

/// One weighted term: the squared difference, scaled by `1 + w * scale`
/// where the scale is the fraction `num / den`, on the integer grid.
pub open spec fn spec_weighted_term(a: int, b: int, w: int, num: int, den: int) -> int {
    spec_sq_diff(a, b) * (den + w * num) / den
}

/// Sum of the weighted squared differences over all buffer positions.
pub open spec fn weighted_diff_sum(a: Seq<u8>, b: Seq<u8>, wts: Seq<u8>, num: int, den: int) -> int
    decreases a.len(),
{
    if a.len() == 0 || a.len() != b.len() || a.len() != wts.len() {
        0
    } else {
        weighted_diff_sum(a.drop_last(), b.drop_last(), wts.drop_last(), num, den)
            + spec_weighted_term(a.last() as int, b.last() as int, wts.last() as int, num, den)
    }
}

/// One weighted term is nonnegative and bounded by `65025 * 2^40`.
pub proof fn lemma_weighted_term_bound(a: int, b: int, w: int, num: int, den: int)
    requires
        0 <= a <= 255,
        0 <= b <= 255,
        0 <= w <= 255,
        0 <= num <= 0xffff_ffff,
        1 <= den <= 0xffff_ffff,
    ensures
        0 <= spec_weighted_term(a, b, w, num, den) <= 0x1000_0000_0000_0000,
        0 < den + w * num <= 0x100_0000_0000,
        0 <= spec_sq_diff(a, b) * (den + w * num) <= 65025 * 0x100_0000_0000,
{
    lemma_sq_diff_bound(a, b);
    let sq = spec_sq_diff(a, b);
    assert(den + w * num <= 0x100_0000_0000) by (nonlinear_arith)
        requires
            0 <= w <= 255,
            0 <= num <= 0xffff_ffff,
            1 <= den <= 0xffff_ffff,
    ;
    assert(0 <= sq * (den + w * num) <= 65025 * 0x100_0000_0000) by (nonlinear_arith)
        requires
            0 <= sq <= 65025,
            0 < den + w * num <= 0x100_0000_0000,
    ;
    vstd::arithmetic::div_mod::lemma_div_nonincreasing(sq * (den + w * num), den);
    assert(0 <= sq * (den + w * num) / den) by (nonlinear_arith)
        requires
            0 <= sq * (den + w * num),
            1 <= den,
    ;
}

/// The weighted sum is nonnegative and bounded per entry.
pub proof fn lemma_weighted_diff_sum_bound(
    a: Seq<u8>,
    b: Seq<u8>,
    wts: Seq<u8>,
    num: int,
    den: int,
)
    requires
        0 <= num <= 0xffff_ffff,
        1 <= den <= 0xffff_ffff,
    ensures
        0 <= weighted_diff_sum(a, b, wts, num, den) <= 0x1000_0000_0000_0000 * a.len(),
    decreases a.len(),
{
    if a.len() == 0 || a.len() != b.len() || a.len() != wts.len() {
    } else {
        lemma_weighted_diff_sum_bound(a.drop_last(), b.drop_last(), wts.drop_last(), num, den);
        lemma_weighted_term_bound(a.last() as int, b.last() as int, wts.last() as int, num, den);
    }
}

#[derive(Clone, Debug)]
pub struct Canvas {
    pub width: usize,
    pub height: usize,
    pub depth: usize,
    pub pixels: Vec<u8>,
}

impl View for Canvas {
    type V = CanvasModel;

    open spec fn view(&self) -> CanvasModel {
        CanvasModel {
            width: self.width as int,
            height: self.height as int,
            depth: self.depth as int,
            pixels: self.pixels@,
        }
    }
}

impl Canvas {
    /// Abbreviation for the model's well-formedness.
    pub open spec fn wf(self) -> bool {
        self@.wf()
    }

    /// A zero-filled canvas.
    pub fn new(width: usize, height: usize, depth: usize) -> (c: Canvas)
        requires
            1 <= width,
            1 <= height,
            depth == 1 || depth == 3 || depth == 4,
            width * height * depth <= 0x3fff_ffff,
        ensures
            c@ == blank_model(width as int, height as int, depth as int),
            c.wf(),
    {
        assert(width * height <= width * height * depth) by (nonlinear_arith)
            requires 1 <= depth,
        ;
        let len: usize = width * height * depth;
        let mut vec: Vec<u8> = Vec::new();
        let mut k: usize = 0;
        while k < len
            invariant
                k <= len,
                vec@ =~= Seq::new(k as nat, |i: int| 0u8),
            decreases len - k,
        {
            vec.push(0);
            k = k + 1;
        }
        let c = Canvas { width, height, depth, pixels: vec };
        assert(c@ =~= blank_model(width as int, height as int, depth as int));
        c
    }

    /// Wraps externally decoded image bytes as a canvas; the bytes are
    /// taken over unchanged.
    pub fn from(width: usize, height: usize, depth: usize, data: Vec<u8>) -> (c: Canvas)
        requires
            1 <= width,
            1 <= height,
            depth == 1 || depth == 3 || depth == 4,
            width * height * depth <= 0x3fff_ffff,
            data@.len() == width * height * depth,
        ensures
            c@.width == width,
            c@.height == height,
            c@.depth == depth,
            c@.pixels == data@,
            c.wf(),
    {
        Canvas { width, height, depth, pixels: data }
    }

    /// Number of entries in the buffer.
    pub fn len(&self) -> (n: usize)
        ensures
            n == self@.pixels.len(),
    {
        self.pixels.len()
    }

    /// Resets every buffer entry to zero in place.
    pub fn wipe(&mut self)
        requires
            old(self).wf(),
        ensures
            final(self).wf(),
            final(self)@ == blank_model(old(self)@.width, old(self)@.height, old(self)@.depth),
    {
        let len = self.pixels.len();
        let mut k: usize = 0;
        while k < len
            invariant
                k <= len,
                len == self.pixels@.len(),
                self.width == old(self).width,
                self.height == old(self).height,
                self.depth == old(self).depth,
                forall|i: int| 0 <= i < k ==> self.pixels@[i] == 0u8,
            decreases len - k,
        {
            self.pixels.set(k, 0);
            k = k + 1;
        }
        assert(self@ =~= blank_model(old(self)@.width, old(self)@.height, old(self)@.depth));
    }

    /// Index of the first channel of the pixel at `(x, y)`.
    pub fn ind_from_pos(&self, x: i32, y: i32) -> (i: i32)
        requires
            self.wf(),
            self@.in_canvas(x as int, y as int),
        ensures
            i == self@.pix_index(x as int, y as int),
            0 <= i && i + self@.depth <= self@.pixels.len(),
    {
        proof {
            lemma_pix_index_bound(self@, x as int, y as int);
        }
        (y * self.width as i32 + x) * self.depth as i32
    }

    /// Bounds-checked compositing of `color` onto the pixel at `(x,
    /// y)`; out-of-range coordinates are a no-op.
    pub fn add_pixel(&mut self, x: i32, y: i32, color: &Color)
        requires
            old(self).wf(),
            color.wf(),
        ensures
            final(self).wf(),
            final(self)@ == composite_pixel(old(self)@, x as int, y as int, *color),
    {
        proof {
            lemma_composite_pixel_wf(old(self)@, x as int, y as int, *color);
        }
        if x >= 0 && y >= 0 && (x as usize) < self.width && (y as usize) < self.height {
            proof {
                lemma_pix_index_bound(self@, x as int, y as int);
            }
            let i: usize = (y as usize * self.width + x as usize) * self.depth;
            proof {
                lemma_color_add_range(
                    self.pixels@[i as int] as int,
                    color.r as int,
                    color.opacity as int,
                );
            }
            let v0 = color_add(self.pixels[i], color.r, color.opacity);
            self.pixels.set(i, v0);
            if self.depth >= 3 {
                let v1 = color_add(self.pixels[i + 1], color.g, color.opacity);
                self.pixels.set(i + 1, v1);
                let v2 = color_add(self.pixels[i + 2], color.b, color.opacity);
                self.pixels.set(i + 2, v2);
            }
            assert(self@.pixels =~= composite_pixel(
                old(self)@,
                x as int,
                y as int,
                *color,
            ).pixels);
            assert(self@ =~= composite_pixel(old(self)@, x as int, y as int, *color));
        }
    }

    /// Composites `color` onto the horizontal run of pixels from `x1`
    /// to `x2` inclusive on row `y`, clipped to the canvas; a no-op for
    /// a row outside the canvas. The fast circle rasterizer's span
    /// primitive.
    pub fn line_add(&mut self, x1: i32, x2: i32, y: i32, color: &Color)
        requires
            old(self).wf(),
            color.wf(),
        ensures
            final(self).wf(),
            final(self)@ == line_add_model(old(self)@, x1 as int, x2 as int, y as int, *color),
    {
        let ghost m0 = self@;
        proof {
            lemma_wf_dims(self@);
        }
        if y < 0 || y >= self.height as i32 {
            return ;
        }
        let wid = self.width as i32;
        let xmin: i32 = if x1 > 0 {
            x1
        } else {
            0
        };
        let xmax: i32 = if x2 < wid - 1 {
            x2
        } else {
            wid - 1
        };
        if xmax < xmin {
            return ;
        }
        let mut x = xmin;
        while x <= xmax
            invariant
                self.wf(),
                xmin <= x <= xmax + 1,
                xmax < self@.width,
                xmax < 0x7fff_ffff,
                0 <= y < self@.height,
                color.wf(),
                self@ == composite_run(m0, xmin as int, (x - xmin) as nat, y as int, *color),
            decreases xmax + 1 - x,
        {
            self.add_pixel(x, y, color);
            x = x + 1;
        }
    }

    /// An independent copy: same dimensions, same buffer contents.
    pub fn clone_canvas(&self) -> (c: Canvas)
        ensures
            c@ == self@,
    {
        let len = self.pixels.len();
        let mut vec: Vec<u8> = Vec::new();
        let mut k: usize = 0;
        while k < len
            invariant
                k <= len,
                len == self.pixels@.len(),
                vec@ =~= self.pixels@.take(k as int),
            decreases len - k,
        {
            vec.push(self.pixels[k]);
            k = k + 1;
        }
        assert(vec@ =~= self.pixels@);
        let c = Canvas { width: self.width, height: self.height, depth: self.depth, pixels: vec };
        assert(c@ =~= self@);
        c
    }

    /// Sum of squared differences between the two buffers. Comparing
    /// canvases of unlike dimensions is a caller error and excluded.
    pub fn diff(&self, canv: &Canvas) -> (total: u64)
        requires
            self.wf(),
            canv.wf(),
            self@.width == canv@.width,
            self@.height == canv@.height,
            self@.depth == canv@.depth,
        ensures
            total == diff_sum(self@.pixels, canv@.pixels),
    {
        let len = self.pixels.len();
        let mut total: u64 = 0;
        let mut x: usize = 0;
        while x < len
            invariant
                x <= len,
                len == self@.pixels.len(),
                len == canv@.pixels.len(),
                len <= 0x7fff_ffff,
                forall|i: int| 0 <= i < len ==> self@.pixels[i] <= 255 && canv@.pixels[i] <= 255,
                total == diff_sum(self@.pixels.take(x as int), canv@.pixels.take(x as int)),
                total <= 65025 * (x as int),
            decreases len - x,
        {
            let d: i64 = self.pixels[x] as i64 - canv.pixels[x] as i64;
            proof {
                lemma_sq_diff_bound(self@.pixels[x as int] as int, canv@.pixels[x as int] as int);
                assert(self@.pixels.take(x + 1).drop_last() =~= self@.pixels.take(x as int));
                assert(canv@.pixels.take(x + 1).drop_last() =~= canv@.pixels.take(x as int));
            }
            total = total + (d * d) as u64;
            x = x + 1;
        }
        proof {
            assert(self@.pixels.take(len as int) =~= self@.pixels);
            assert(canv@.pixels.take(len as int) =~= canv@.pixels);
        }
        total
    }

    /// As `diff`, but each squared term is scaled by `1 + w * scale`,
    /// with the scale given as the fraction `scale_num / scale_den` and
    /// the weight `w` read from the weights canvas.
    pub fn weighted_diff(&self, canv: &Canvas, weights: &Canvas, scale_num: u32, scale_den: u32)
        -> (total: u128)
        requires
            self.wf(),
            canv.wf(),
            weights.wf(),
            self@.width == canv@.width,
            self@.height == canv@.height,
            self@.depth == canv@.depth,
            self@.pixels.len() == weights@.pixels.len(),
            1 <= scale_den,
        ensures
            total == weighted_diff_sum(
                self@.pixels,
                canv@.pixels,
                weights@.pixels,
                scale_num as int,
                scale_den as int,
            ),
    {
        let len = self.pixels.len();
        let mut total: u128 = 0;
        let mut x: usize = 0;
        while x < len
            invariant
                x <= len,
                len == self@.pixels.len(),
                len == canv@.pixels.len(),
                len == weights@.pixels.len(),
                len <= 0x7fff_ffff,
                1 <= scale_den,
                total == weighted_diff_sum(
                    self@.pixels.take(x as int),
                    canv@.pixels.take(x as int),
                    weights@.pixels.take(x as int),
                    scale_num as int,
                    scale_den as int,
                ),
                total <= 0x1000_0000_0000_0000 * (x as int),
            decreases len - x,
        {
            proof {
                lemma_weighted_term_bound(
                    self@.pixels[x as int] as int,
                    canv@.pixels[x as int] as int,
                    weights@.pixels[x as int] as int,
                    scale_num as int,
                    scale_den as int,
                );
                lemma_sq_diff_bound(self@.pixels[x as int] as int, canv@.pixels[x as int] as int);
                assert(self@.pixels.take(x + 1).drop_last() =~= self@.pixels.take(x as int));
                assert(canv@.pixels.take(x + 1).drop_last() =~= canv@.pixels.take(x as int));
                assert(weights@.pixels.take(x + 1).drop_last() =~= weights@.pixels.take(x as int));
            }
            let d: i64 = self.pixels[x] as i64 - canv.pixels[x] as i64;
            let sq: u128 = (d * d) as u128;
            let factor: u128 = scale_den as u128 + weights.pixels[x] as u128 * scale_num as u128;
            let term: u128 = sq * factor / (scale_den as u128);
            total = total + term;
            x = x + 1;
        }
        proof {
            assert(self@.pixels.take(len as int) =~= self@.pixels);
            assert(canv@.pixels.take(len as int) =~= canv@.pixels);
            assert(weights@.pixels.take(len as int) =~= weights@.pixels);
        }
        total
    }

    /// The buffer as bytes, for an external encoder.
    pub fn get_pixels(&self) -> (out: Vec<u8>)
        ensures
            out@ == self@.pixels,
    {
        let len = self.pixels.len();
        let mut vec: Vec<u8> = Vec::new();
        let mut i: usize = 0;
        while i < len
            invariant
                i <= len,
                len == self.pixels@.len(),
                vec@ =~= self.pixels@.take(i as int),
            decreases len - i,
        {
            vec.push(self.pixels[i]);
            i = i + 1;
        }
        assert(vec@ =~= self.pixels@);
        vec
    }

    /// Defensive pixel read: the color at `(x, y)`, or opaque black for
    /// out-of-range coordinates.
    pub fn pixel_at(&self, x: i32, y: i32) -> (c: Color)
        requires
            self.wf(),
        ensures
            c == spec_pixel_at(self@, x as int, y as int),
            c.wf(),
    {
        if x >= 0 && y >= 0 && (x as usize) < self.width && (y as usize) < self.height {
            proof {
                lemma_pix_index_bound(self@, x as int, y as int);
            }
            let i: usize = (y as usize * self.width + x as usize) * self.depth;
            if self.depth == 1 {
                Color { r: self.pixels[i], g: self.pixels[i], b: self.pixels[i], opacity: OPACITY_SCALE }
            } else {
                Color {
                    r: self.pixels[i],
                    g: self.pixels[i + 1],
                    b: self.pixels[i + 2],
                    opacity: OPACITY_SCALE,
                }
            }
        } else {
            Color::black()
        }
    }

    /// Squared color distance between the pixels at two coordinates,
    /// each read defensively.
    pub fn pixel_diff_sq(&self, x1: i32, y1: i32, x2: i32, y2: i32) -> (d: i32)
        requires
            self.wf(),
        ensures
            d == spec_pixel_diff_sq(self@, x1 as int, y1 as int, x2 as int, y2 as int),
            0 <= d <= 195075,
    {
        let p1 = self.pixel_at(x1, y1);
        let p2 = self.pixel_at(x2, y2);
        proof {
            lemma_sq_diff_bound(p1.r as int, p2.r as int);
            lemma_sq_diff_bound(p1.g as int, p2.g as int);
            lemma_sq_diff_bound(p1.b as int, p2.b as int);
        }
        (p1.r as i32 - p2.r as i32) * (p1.r as i32 - p2.r as i32)
            + (p1.g as i32 - p2.g as i32) * (p1.g as i32 - p2.g as i32)
            + (p1.b as i32 - p2.b as i32) * (p1.b as i32 - p2.b as i32)
    }

    /// Sum of squared color distances between the pixel at `(x, y)` and
    /// every other pixel within a square window of the given radius,
    /// clipped to the canvas. Exposed for external entropy weighting;
    /// the radius bound keeps the sum within an `i32`.
    pub fn neighbors_diffsq(&self, x: i32, y: i32, radius: i32) -> (total: i32)
        requires
            self.wf(),
            0 <= radius <= 52,
        ensures
            total == spec_neighbors_diffsq(self@, x as int, y as int, radius as int),
            0 <= total,
    {
        proof {
            lemma_wf_dims(self@);
        }
        let w = self.width as i32;
        let h = self.height as i32;
        let xlo: i64 = if (x as i64 - radius as i64) > 0 {
            x as i64 - radius as i64
        } else {
            0
        };
        let xhi: i64 = if (x as i64 + radius as i64) < (w as i64) {
            x as i64 + radius as i64
        } else {
            w as i64
        };
        let ylo: i64 = if (y as i64 - radius as i64) > 0 {
            y as i64 - radius as i64
        } else {
            0
        };
        let yhi: i64 = if (y as i64 + radius as i64) < (h as i64) {
            y as i64 + radius as i64
        } else {
            h as i64
        };
        if xhi <= xlo || yhi <= ylo {
            return 0;
        }
        let mut total: i32 = 0;
        let mut px: i64 = xlo;
        while px < xhi
            invariant
                self.wf(),
                0 <= radius <= 52,
                0 <= xlo <= px <= xhi,
                0 <= ylo < yhi,
                xhi - xlo <= 104,
                yhi - ylo <= 104,
                xhi <= self@.width,
                yhi <= self@.height,
                xhi <= 0x7fff_ffff,
                yhi <= 0x7fff_ffff,
                0 <= total,
                total as int == neighbors_sum(
                    self@,
                    x as int,
                    y as int,
                    xlo as int,
                    (px - xlo) as nat,
                    ylo as int,
                    (yhi - ylo) as nat,
                ),
                total as int <= 195075 * ((px - xlo) * (yhi - ylo)),
            decreases xhi - px,
        {
            let mut py: i64 = ylo;
            while py < yhi
                invariant
                    self.wf(),
                    0 <= xlo <= px < xhi,
                    0 <= ylo <= py <= yhi,
                    xhi - xlo <= 104,
                    yhi - ylo <= 104,
                    xhi <= self@.width,
                    yhi <= self@.height,
                    xhi <= 0x7fff_ffff,
                    yhi <= 0x7fff_ffff,
                    0 <= total,
                    total as int == neighbors_sum(
                        self@,
                        x as int,
                        y as int,
                        xlo as int,
                        (px - xlo) as nat,
                        ylo as int,
                        (yhi - ylo) as nat,
                    ) + neighbors_col_sum(
                        self@,
                        x as int,
                        y as int,
                        px as int,
                        ylo as int,
                        (py - ylo) as nat,
                    ),
                    total as int <= 195075 * ((px - xlo) * (yhi - ylo) + (py - ylo)),
                decreases yhi - py,
            {
                proof {
                    assert(195075 * ((px - xlo) * (yhi - ylo) + (py - ylo) + 1) <= 0x7fff_ffff)
                        by (nonlinear_arith)
                        requires
                            0 <= px - xlo < xhi - xlo <= 104,
                            0 <= py - ylo < yhi - ylo <= 104,
                    ;
                }
                if !(px == x as i64 && py == y as i64) {
                    let d = self.pixel_diff_sq(x, y, px as i32, py as i32);
                    total = total + d;
                }
                py = py + 1;
            }
            proof {
                assert(195075 * ((px - xlo) * (yhi - ylo) + (yhi - ylo)) == 195075 * ((px - xlo
                    + 1) * (yhi - ylo))) by (nonlinear_arith);
            }
            px = px + 1;
        }
        total
    }
}

} // verus!
