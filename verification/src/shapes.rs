//! The closed set of shape primitives: circles, rectangles and
//! triangles.
//!
//! Positions and sizes are normalized to the unit square on the
//! thousandths grid, scaled by the actual canvas dimensions only at
//! draw and serialize time. Each variant can randomize itself, mutate
//! one attribute, rasterize itself onto a canvas, and print vector
//! markup and a canonical fixed-precision tag.

use vstd::prelude::*;
use crate::canvas::{
    Canvas, CanvasModel, composite_pixel, line_add_model, lemma_composite_pixel_wf,
    lemma_line_add_model_wf, lemma_wf_dims,
};
use crate::color::{Color, spec_rgba, color_mutated_from};
use crate::rando::{rand, randu8, rand_below, rand_adjust, is_nudged};
use crate::textfmt::{
    spec_dec, spec_coord6, spec_coord3, u32_dec, coord6, coord3,
};

verus! {

/// One unit of a normalized coordinate is a thousandth of the canvas
/// dimension it is scaled by.
pub const COORD_SCALE: u16 = 1000;

/// The nudge range of a mutated positional attribute, in thousandths.
pub const COORD_NUDGE_RANGE: u16 = 500;

/// The smallest radius a mutation clamps to, in thousandths.
pub const RADIUS_FLOOR: u16 = 10;

/// A normalized coordinate scaled to a canvas dimension, truncated to a
/// pixel index.
pub open spec fn spec_scaled(v: int, dim: int) -> int {
    v * dim / 1000
}

/// Scaling a grid coordinate lands inside `0 ..= dim`.
pub proof fn lemma_scaled_range(v: int, dim: int)
    requires
        0 <= v <= 1000,
        0 <= dim,
    ensures
        0 <= spec_scaled(v, dim) <= dim,
{
    assert(0 <= v * dim <= 1000 * dim) by (nonlinear_arith)
        requires
            0 <= v <= 1000,
            0 <= dim,
    ;
    vstd::arithmetic::div_mod::lemma_div_is_ordered(v * dim, 1000 * dim, 1000);
    vstd::arithmetic::div_mod::lemma_div_by_multiple(dim, 1000);
    assert(dim * 1000 == 1000 * dim) by (nonlinear_arith);
    assert(0 <= v * dim / 1000) by (nonlinear_arith)
        requires
            0 <= v * dim,
    ;
}

/// Whether `post` is a bounded clamped nudge of the positional grid
/// value `pre`.
pub open spec fn coord_nudged(post: u16, pre: u16) -> bool {
    is_nudged(post as int, pre as int, COORD_NUDGE_RANGE as int, 0, 1000)
}

/// Scales a normalized grid value by a canvas dimension.
pub fn scale_dim(v: u16, dim: usize) -> (p: i64)
    requires
        v <= 1000,
        dim <= 0x3fff_ffff,
    ensures
        p == spec_scaled(v as int, dim as int),
        0 <= p <= dim,
{
    proof {
        lemma_scaled_range(v as int, dim as int);
    }
    ((v as u64 * dim as u64) / 1000) as i64
}

/// The capability set every shape variant implements.
pub trait ShapeBehaviour: Sized {
    /// All attributes lie on their grids.
    spec fn wf(&self) -> bool;

    /// The canvas that drawing this shape onto `m` produces.
    spec fn drawn(&self, m: CanvasModel) -> CanvasModel;

    /// How a mutated shape may relate to the one it came from: exactly
    /// one attribute resampled within its domain.
    spec fn mutated_from(&self, pre: &Self) -> bool;

    /// The vector markup of this shape at the given canvas size.
    spec fn svg_spec(&self, width: int, height: int) -> Seq<char>;

    /// The canonical fixed-precision tag of this shape.
    spec fn tag_spec(&self) -> Seq<char>;

    /// Resamples one randomly chosen attribute.
    fn mutate(&mut self)
        requires
            old(self).wf(),
        ensures
            final(self).wf(),
            final(self).mutated_from(old(self)),
    ;

    /// Vector markup, coordinates scaled by the canvas size and
    /// truncated to integers.
    fn svg(&self, width: usize, height: usize) -> (out: String)
        requires
            self.wf(),
            width <= 0x3fff_ffff,
            height <= 0x3fff_ffff,
        ensures
            out@ == self.svg_spec(width as int, height as int),
    ;

    /// The canonical fixed-precision tag.
    fn to_string(&self) -> (out: String)
        requires
            self.wf(),
        ensures
            out@ == self.tag_spec(),
    ;

    /// Rasterizes this shape onto the canvas.
    fn draw_onto(&self, canv: &mut Canvas)
        requires
            self.wf(),
            old(canv).wf(),
        ensures
            final(canv).wf(),
            final(canv)@ == self.drawn(old(canv)@),
    ;
}

// ------------------------------------------------------------------
// Rect
// ------------------------------------------------------------------

#[derive(Clone, Copy, PartialEq, Eq, Structural, Debug, Hash)]
pub struct Rect {
    pub x: u16,
    pub y: u16,
    pub width: u16,
    pub height: u16,
    pub color: Color,
}

/// Composites `color` onto the `n` pixels of column `x` from row `ylo`
/// downward.
pub open spec fn fill_col(m: CanvasModel, x: int, ylo: int, n: nat, color: Color) -> CanvasModel
    decreases n,
{
    if n == 0 {
        m
    } else {
        composite_pixel(fill_col(m, x, ylo, (n - 1) as nat, color), x, ylo + n - 1, color)
    }
}

/// Composites `color` onto a solid block of `ncols` columns starting at
/// `xlo`, each `nrows` pixels from `ylo` downward.
pub open spec fn fill_rect(
    m: CanvasModel,
    xlo: int,
    ncols: nat,
    ylo: int,
    nrows: nat,
    color: Color,
) -> CanvasModel
    decreases ncols,
{
    if ncols == 0 {
        m
    } else {
        fill_col(
            fill_rect(m, xlo, (ncols - 1) as nat, ylo, nrows, color),
            xlo + ncols - 1,
            ylo,
            nrows,
            color,
        )
    }
}

/// The effect of drawing a rectangle: its axis-aligned bounding box,
/// clipped to the canvas, every interior pixel composited column by
/// column.
pub open spec fn spec_draw_rect(m: CanvasModel, rc: Rect) -> CanvasModel {
    let x1 = spec_scaled(rc.x as int, m.width);
    let y1 = spec_scaled(rc.y as int, m.height);
    let x2 = x1 + spec_scaled(rc.width as int, m.width);
    let y2 = y1 + spec_scaled(rc.height as int, m.height);
    let xmin = if x1 > 0 {
        x1
    } else {
        0
    };
    let xmax = if x2 < m.width {
        x2
    } else {
        m.width
    };
    let ymin = if y1 > 0 {
        y1
    } else {
        0
    };
    let ymax = if y2 < m.height {
        y2
    } else {
        m.height
    };
    if xmax <= xmin || ymax <= ymin {
        m
    } else {
        fill_rect(m, xmin, (xmax - xmin) as nat, ymin, (ymax - ymin) as nat, rc.color)
    }
}

/// Filling a column preserves dimensions and well-formedness.
pub proof fn lemma_fill_col_wf(m: CanvasModel, x: int, ylo: int, n: nat, color: Color)
    requires
        m.wf(),
    ensures
        fill_col(m, x, ylo, n, color).wf(),
        fill_col(m, x, ylo, n, color).width == m.width,
        fill_col(m, x, ylo, n, color).height == m.height,
        fill_col(m, x, ylo, n, color).depth == m.depth,
    decreases n,
{
    if n > 0 {
        lemma_fill_col_wf(m, x, ylo, (n - 1) as nat, color);
        lemma_composite_pixel_wf(fill_col(m, x, ylo, (n - 1) as nat, color), x, ylo + n - 1, color);
    }
}

/// Filling a block preserves dimensions and well-formedness.
pub proof fn lemma_fill_rect_wf(
    m: CanvasModel,
    xlo: int,
    ncols: nat,
    ylo: int,
    nrows: nat,
    color: Color,
)
    requires
        m.wf(),
    ensures
        fill_rect(m, xlo, ncols, ylo, nrows, color).wf(),
        fill_rect(m, xlo, ncols, ylo, nrows, color).width == m.width,
        fill_rect(m, xlo, ncols, ylo, nrows, color).height == m.height,
        fill_rect(m, xlo, ncols, ylo, nrows, color).depth == m.depth,
    decreases ncols,
{
    if ncols > 0 {
        lemma_fill_rect_wf(m, xlo, (ncols - 1) as nat, ylo, nrows, color);
        lemma_fill_col_wf(
            fill_rect(m, xlo, (ncols - 1) as nat, ylo, nrows, color),
            xlo + ncols - 1,
            ylo,
            nrows,
            color,
        );
    }
}

impl Rect {
    /// A freshly randomized rectangle: position and size uniform on the
    /// grid, color channels uniform over the byte range, opacity
    /// uniform on the grid.
    pub fn random() -> (s: Rect)
        ensures
            s.wf(),
    {
        Rect {
            x: rand(),
            y: rand(),
            width: rand(),
            height: rand(),
            color: Color { r: randu8(), g: randu8(), b: randu8(), opacity: rand() },
        }
    }
}

impl ShapeBehaviour for Rect {
    open spec fn wf(&self) -> bool {
        &&& self.x <= 1000
        &&& self.y <= 1000
        &&& self.width <= 1000
        &&& self.height <= 1000
        &&& self.color.wf()
    }

    open spec fn drawn(&self, m: CanvasModel) -> CanvasModel {
        spec_draw_rect(m, *self)
    }

    open spec fn mutated_from(&self, pre: &Self) -> bool {
        ||| (self.x == pre.x && self.y == pre.y && self.width == pre.width && self.height
            == pre.height && color_mutated_from(self.color, pre.color))
        ||| (coord_nudged(self.x, pre.x) && self.y == pre.y && self.width == pre.width
            && self.height == pre.height && self.color == pre.color)
        ||| (self.x == pre.x && coord_nudged(self.y, pre.y) && self.width == pre.width
            && self.height == pre.height && self.color == pre.color)
        ||| (self.x == pre.x && self.y == pre.y && coord_nudged(self.width, pre.width)
            && self.height == pre.height && self.color == pre.color)
        ||| (self.x == pre.x && self.y == pre.y && self.width == pre.width && coord_nudged(
            self.height,
            pre.height,
        ) && self.color == pre.color)
    }

    open spec fn svg_spec(&self, width: int, height: int) -> Seq<char> {
        "<rect x='"@ + spec_dec(spec_scaled(self.x as int, width)) + "' y='"@ + spec_dec(
            spec_scaled(self.y as int, height),
        ) + "' width='"@ + spec_dec(spec_scaled(self.width as int, width)) + "' height='"@
            + spec_dec(spec_scaled(self.height as int, height)) + "' fill='"@ + spec_rgba(
            self.color,
        ) + "' />"@
    }

    open spec fn tag_spec(&self) -> Seq<char> {
        "<R"@ + spec_coord6(self.x as int) + ","@ + spec_coord6(self.y as int) + ","@
            + spec_coord6(self.width as int) + ","@ + spec_coord6(self.height as int) + ","@
            + spec_rgba(self.color) + ">"@
    }

    fn mutate(&mut self) {
        let k = rand_below(100);
        if k <= 60 {
            self.color = self.color.mutate();
        } else if k <= 70 {
            self.x = rand_adjust(self.x, COORD_NUDGE_RANGE, 0, 1000);
        } else if k <= 80 {
            self.y = rand_adjust(self.y, COORD_NUDGE_RANGE, 0, 1000);
        } else if k <= 90 {
            self.width = rand_adjust(self.width, COORD_NUDGE_RANGE, 0, 1000);
        } else {
            self.height = rand_adjust(self.height, COORD_NUDGE_RANGE, 0, 1000);
        }
    }

    fn svg(&self, width: usize, height: usize) -> (out: String) {
        proof {
            reveal_strlit("<rect x='");
            reveal_strlit("' y='");
            reveal_strlit("' width='");
            reveal_strlit("' height='");
            reveal_strlit("' fill='");
            reveal_strlit("' />");
        }
        let mut out = String::from_str("<rect x='");
        let sx = u32_dec((scale_dim(self.x, width)) as u32);
        out.append(sx.as_str());
        out.append("' y='");
        let sy = u32_dec((scale_dim(self.y, height)) as u32);
        out.append(sy.as_str());
        out.append("' width='");
        let sw = u32_dec((scale_dim(self.width, width)) as u32);
        out.append(sw.as_str());
        out.append("' height='");
        let sh = u32_dec((scale_dim(self.height, height)) as u32);
        out.append(sh.as_str());
        out.append("' fill='");
        let fill = self.color.rgba();
        out.append(fill.as_str());
        out.append("' />");
        assert(out@ =~= self.svg_spec(width as int, height as int));
        out
    }

    fn to_string(&self) -> (out: String) {
        proof {
            reveal_strlit("<R");
            reveal_strlit(",");
            reveal_strlit(">");
        }
        let mut out = String::from_str("<R");
        let cx = coord6(self.x);
        out.append(cx.as_str());
        out.append(",");
        let cy = coord6(self.y);
        out.append(cy.as_str());
        out.append(",");
        let cw = coord6(self.width);
        out.append(cw.as_str());
        out.append(",");
        let ch = coord6(self.height);
        out.append(ch.as_str());
        out.append(",");
        let fill = self.color.rgba();
        out.append(fill.as_str());
        out.append(">");
        assert(out@ =~= self.tag_spec());
        out
    }

    fn draw_onto(&self, canv: &mut Canvas) {
        let ghost m0 = canv@;
        proof {
            lemma_wf_dims(canv@);
        }
        let x1 = scale_dim(self.x, canv.width);
        let y1 = scale_dim(self.y, canv.height);
        let x2 = x1 + scale_dim(self.width, canv.width);
        let y2 = y1 + scale_dim(self.height, canv.height);
        let xmin: i64 = if x1 > 0 {
            x1
        } else {
            0
        };
        let xmax: i64 = if x2 < canv.width as i64 {
            x2
        } else {
            canv.width as i64
        };
        let ymin: i64 = if y1 > 0 {
            y1
        } else {
            0
        };
        let ymax: i64 = if y2 < canv.height as i64 {
            y2
        } else {
            canv.height as i64
        };
        if xmax <= xmin || ymax <= ymin {
            return ;
        }
        let mut x = xmin;
        while x < xmax
            invariant
                canv.wf(),
                self.wf(),
                canv@.width == m0.width,
                canv@.height == m0.height,
                canv@.depth == m0.depth,
                0 <= xmin <= x <= xmax,
                xmax <= m0.width <= 0x3fff_ffff,
                0 <= ymin < ymax <= m0.height <= 0x3fff_ffff,
                canv@ == fill_rect(
                    m0,
                    xmin as int,
                    (x - xmin) as nat,
                    ymin as int,
                    (ymax - ymin) as nat,
                    self.color,
                ),
            decreases xmax - x,
        {
            let ghost mcol = canv@;
            let mut y = ymin;
            while y < ymax
                invariant
                    canv.wf(),
                    self.wf(),
                    canv@.width == m0.width,
                    canv@.height == m0.height,
                    canv@.depth == m0.depth,
                    0 <= xmin <= x < xmax,
                    xmax <= m0.width <= 0x3fff_ffff,
                    0 <= ymin <= y <= ymax <= m0.height <= 0x3fff_ffff,
                    canv@ == fill_col(mcol, x as int, ymin as int, (y - ymin) as nat, self.color),
                decreases ymax - y,
            {
                canv.add_pixel(x as i32, y as i32, &self.color);
                y = y + 1;
            }
            x = x + 1;
        }
        assert(canv@ == spec_draw_rect(m0, *self));
    }
}

// ------------------------------------------------------------------
// Triangle
// ------------------------------------------------------------------

#[derive(Clone, Copy, PartialEq, Eq, Structural, Debug, Hash)]
pub struct Triangle {
    pub x1: u16,
    pub x2: u16,
    pub x3: u16,
    pub y1: u16,
    pub y2: u16,
    pub y3: u16,
    pub color: Color,
}

/// A triangle's three vertices in pixel coordinates.
pub ghost struct TriPix {
    pub x1: int,
    pub y1: int,
    pub x2: int,
    pub y2: int,
    pub x3: int,
    pub y3: int,
}

/// The sign-based point-in-triangle test: the pixel is strictly on the
/// same side of all three edges. Boundary pixels on an edge follow the
/// strict-inequality convention as it stands.
pub open spec fn spec_tri_inside(t: TriPix, x: int, y: int) -> bool {
    let asx = x - t.x1;
    let asy = y - t.y1;
    let sab = (t.x2 - t.x1) * asy - (t.y2 - t.y1) * asx > 0;
    &&& (((t.x3 - t.x1) * asy - (t.y3 - t.y1) * asx > 0) != sab)
    &&& ((((t.x3 - t.x2) * (y - t.y2) - (t.y3 - t.y2) * (x - t.x2)) > 0) == sab)
}

/// Composites `color` onto those of the `n` pixels of column `x` from
/// row `ylo` downward that pass the inside test.
pub open spec fn tri_col(
    m: CanvasModel,
    t: TriPix,
    color: Color,
    x: int,
    ylo: int,
    n: nat,
) -> CanvasModel
    decreases n,
{
    if n == 0 {
        m
    } else {
        let prev = tri_col(m, t, color, x, ylo, (n - 1) as nat);
        if spec_tri_inside(t, x, ylo + n - 1) {
            composite_pixel(prev, x, ylo + n - 1, color)
        } else {
            prev
        }
    }
}

/// Composites `color` onto the inside pixels of `ncols` columns
/// starting at `xlo`, each `nrows` pixels from `ylo` downward.
pub open spec fn tri_cols(
    m: CanvasModel,
    t: TriPix,
    color: Color,
    xlo: int,
    ncols: nat,
    ylo: int,
    nrows: nat,
) -> CanvasModel
    decreases ncols,
{
    if ncols == 0 {
        m
    } else {
        tri_col(
            tri_cols(m, t, color, xlo, (ncols - 1) as nat, ylo, nrows),
            t,
            color,
            xlo + ncols - 1,
            ylo,
            nrows,
        )
    }
}

/// The vertices of a triangle scaled to a canvas's dimensions.
pub open spec fn spec_tri_pix(tr: Triangle, m: CanvasModel) -> TriPix {
    TriPix {
        x1: spec_scaled(tr.x1 as int, m.width),
        y1: spec_scaled(tr.y1 as int, m.height),
        x2: spec_scaled(tr.x2 as int, m.width),
        y2: spec_scaled(tr.y2 as int, m.height),
        x3: spec_scaled(tr.x3 as int, m.width),
        y3: spec_scaled(tr.y3 as int, m.height),
    }
}

/// The effect of drawing a triangle: the bounding box of its vertices,
/// clipped to the canvas, each inside pixel composited column by
/// column.
pub open spec fn spec_draw_triangle(m: CanvasModel, tr: Triangle) -> CanvasModel {
    let t = spec_tri_pix(tr, m);
    let mx12 = if t.x1 < t.x2 {
        t.x1
    } else {
        t.x2
    };
    let xmin = if mx12 < t.x3 {
        mx12
    } else {
        t.x3
    };
    let hx12 = if t.x1 > t.x2 {
        t.x1
    } else {
        t.x2
    };
    let hx = if hx12 > t.x3 {
        hx12
    } else {
        t.x3
    };
    let xmax = if hx < m.width {
        hx
    } else {
        m.width
    };
    let my12 = if t.y1 < t.y2 {
        t.y1
    } else {
        t.y2
    };
    let ymin = if my12 < t.y3 {
        my12
    } else {
        t.y3
    };
    let hy12 = if t.y1 > t.y2 {
        t.y1
    } else {
        t.y2
    };
    let hy = if hy12 > t.y3 {
        hy12
    } else {
        t.y3
    };
    let ymax = if hy < m.height {
        hy
    } else {
        m.height
    };
    if xmax <= xmin || ymax <= ymin {
        m
    } else {
        tri_cols(m, t, tr.color, xmin, (xmax - xmin) as nat, ymin, (ymax - ymin) as nat)
    }
}

/// A product of two values bounded by `m` in magnitude is bounded by
/// `m * m`.
pub proof fn lemma_mul_bound(a: int, b: int, m: int)
    requires
        -m <= a <= m,
        -m <= b <= m,
        0 <= m,
    ensures
        -(m * m) <= a * b <= m * m,
{
    assert(-(m * m) <= a * b <= m * m) by (nonlinear_arith)
        requires
            -m <= a <= m,
            -m <= b <= m,
            0 <= m,
    ;
}

/// The sign-based inside test on pixel coordinates, evaluated without
/// overflow for coordinates within the canvas index bound.
fn tri_inside(
    px1: i64,
    py1: i64,
    px2: i64,
    py2: i64,
    px3: i64,
    py3: i64,
    x: i64,
    y: i64,
) -> (b: bool)
    requires
        0 <= px1 <= 0x3fff_ffff,
        0 <= py1 <= 0x3fff_ffff,
        0 <= px2 <= 0x3fff_ffff,
        0 <= py2 <= 0x3fff_ffff,
        0 <= px3 <= 0x3fff_ffff,
        0 <= py3 <= 0x3fff_ffff,
        0 <= x <= 0x3fff_ffff,
        0 <= y <= 0x3fff_ffff,
    ensures
        b == spec_tri_inside(
            TriPix {
                x1: px1 as int,
                y1: py1 as int,
                x2: px2 as int,
                y2: py2 as int,
                x3: px3 as int,
                y3: py3 as int,
            },
            x as int,
            y as int,
        ),
{
    proof {
        lemma_mul_bound(px2 as int - px1 as int, y as int - py1 as int, 0x3fff_ffff);
        lemma_mul_bound(py2 as int - py1 as int, x as int - px1 as int, 0x3fff_ffff);
        lemma_mul_bound(px3 as int - px1 as int, y as int - py1 as int, 0x3fff_ffff);
        lemma_mul_bound(py3 as int - py1 as int, x as int - px1 as int, 0x3fff_ffff);
        lemma_mul_bound(px3 as int - px2 as int, y as int - py2 as int, 0x3fff_ffff);
        lemma_mul_bound(py3 as int - py2 as int, x as int - px2 as int, 0x3fff_ffff);
    }
    let asx = x - px1;
    let asy = y - py1;
    let sab = (px2 - px1) * asy - (py2 - py1) * asx > 0;
    if (((px3 - px1) * asy - (py3 - py1) * asx) > 0) != sab {
        if (((px3 - px2) * (y - py2) - (py3 - py2) * (x - px2)) > 0) == sab {
            return true;
        }
    }
    false
}

/// Filling a triangle column preserves dimensions and well-formedness.
pub proof fn lemma_tri_col_wf(m: CanvasModel, t: TriPix, color: Color, x: int, ylo: int, n: nat)
    requires
        m.wf(),
    ensures
        tri_col(m, t, color, x, ylo, n).wf(),
        tri_col(m, t, color, x, ylo, n).width == m.width,
        tri_col(m, t, color, x, ylo, n).height == m.height,
        tri_col(m, t, color, x, ylo, n).depth == m.depth,
    decreases n,
{
    if n > 0 {
        lemma_tri_col_wf(m, t, color, x, ylo, (n - 1) as nat);
        lemma_composite_pixel_wf(tri_col(m, t, color, x, ylo, (n - 1) as nat), x, ylo + n - 1, color);
    }
}

impl Triangle {
    /// A freshly randomized triangle: vertices uniform on the grid,
    /// color channels uniform over the byte range, opacity uniform on
    /// the grid.
    pub fn random() -> (s: Triangle)
        ensures
            s.wf(),
    {
        Triangle {
            x1: rand(),
            x2: rand(),
            x3: rand(),
            y1: rand(),
            y2: rand(),
            y3: rand(),
            color: Color { r: randu8(), g: randu8(), b: randu8(), opacity: rand() },
        }
    }
}

impl ShapeBehaviour for Triangle {
    open spec fn wf(&self) -> bool {
        &&& self.x1 <= 1000
        &&& self.y1 <= 1000
        &&& self.x2 <= 1000
        &&& self.y2 <= 1000
        &&& self.x3 <= 1000
        &&& self.y3 <= 1000
        &&& self.color.wf()
    }

    open spec fn drawn(&self, m: CanvasModel) -> CanvasModel {
        spec_draw_triangle(m, *self)
    }

    open spec fn mutated_from(&self, pre: &Self) -> bool {
        ||| (self.x1 == pre.x1 && self.y1 == pre.y1 && self.x2 == pre.x2 && self.y2 == pre.y2
            && self.x3 == pre.x3 && self.y3 == pre.y3 && color_mutated_from(
            self.color,
            pre.color,
        ))
        ||| (coord_nudged(self.x1, pre.x1) && self.y1 == pre.y1 && self.x2 == pre.x2 && self.y2
            == pre.y2 && self.x3 == pre.x3 && self.y3 == pre.y3 && self.color == pre.color)
        ||| (self.x1 == pre.x1 && coord_nudged(self.y1, pre.y1) && self.x2 == pre.x2 && self.y2
            == pre.y2 && self.x3 == pre.x3 && self.y3 == pre.y3 && self.color == pre.color)
        ||| (self.x1 == pre.x1 && self.y1 == pre.y1 && coord_nudged(self.x2, pre.x2) && self.y2
            == pre.y2 && self.x3 == pre.x3 && self.y3 == pre.y3 && self.color == pre.color)
        ||| (self.x1 == pre.x1 && self.y1 == pre.y1 && self.x2 == pre.x2 && coord_nudged(
            self.y2,
            pre.y2,
        ) && self.x3 == pre.x3 && self.y3 == pre.y3 && self.color == pre.color)
        ||| (self.x1 == pre.x1 && self.y1 == pre.y1 && self.x2 == pre.x2 && self.y2 == pre.y2
            && coord_nudged(self.x3, pre.x3) && self.y3 == pre.y3 && self.color == pre.color)
        ||| (self.x1 == pre.x1 && self.y1 == pre.y1 && self.x2 == pre.x2 && self.y2 == pre.y2
            && self.x3 == pre.x3 && coord_nudged(self.y3, pre.y3) && self.color == pre.color)
    }

    open spec fn svg_spec(&self, width: int, height: int) -> Seq<char> {
        "<polygon points='"@ + spec_dec(spec_scaled(self.x1 as int, width)) + ","@ + spec_dec(
            spec_scaled(self.y1 as int, height),
        ) + " "@ + spec_dec(spec_scaled(self.x2 as int, width)) + ","@ + spec_dec(
            spec_scaled(self.y2 as int, height),
        ) + " "@ + spec_dec(spec_scaled(self.x3 as int, width)) + ","@ + spec_dec(
            spec_scaled(self.y3 as int, height),
        ) + "' fill='"@ + spec_rgba(self.color) + "' />"@
    }

    open spec fn tag_spec(&self) -> Seq<char> {
        "<T"@ + spec_coord6(self.x1 as int) + ","@ + spec_coord6(self.y1 as int) + ","@
            + spec_coord6(self.x2 as int) + ","@ + spec_coord6(self.y2 as int) + ","@
            + spec_coord6(self.x3 as int) + ","@ + spec_coord6(self.y3 as int) + ","@ + spec_rgba(
            self.color,
        ) + ">"@
    }

    fn mutate(&mut self) {
        let k = rand_below(100);
        if k <= 40 {
            self.color = self.color.mutate();
        } else if k <= 50 {
            self.x1 = rand_adjust(self.x1, COORD_NUDGE_RANGE, 0, 1000);
        } else if k <= 60 {
            self.y1 = rand_adjust(self.y1, COORD_NUDGE_RANGE, 0, 1000);
        } else if k <= 70 {
            self.x2 = rand_adjust(self.x2, COORD_NUDGE_RANGE, 0, 1000);
        } else if k <= 80 {
            self.y2 = rand_adjust(self.y2, COORD_NUDGE_RANGE, 0, 1000);
        } else if k <= 90 {
            self.x3 = rand_adjust(self.x3, COORD_NUDGE_RANGE, 0, 1000);
        } else {
            self.y3 = rand_adjust(self.y3, COORD_NUDGE_RANGE, 0, 1000);
        }
    }

    fn svg(&self, width: usize, height: usize) -> (out: String) {
        proof {
            reveal_strlit("<polygon points='");
            reveal_strlit(",");
            reveal_strlit(" ");
            reveal_strlit("' fill='");
            reveal_strlit("' />");
        }
        let mut out = String::from_str("<polygon points='");
        let sx1 = u32_dec((scale_dim(self.x1, width)) as u32);
        out.append(sx1.as_str());
        out.append(",");
        let sy1 = u32_dec((scale_dim(self.y1, height)) as u32);
        out.append(sy1.as_str());
        out.append(" ");
        let sx2 = u32_dec((scale_dim(self.x2, width)) as u32);
        out.append(sx2.as_str());
        out.append(",");
        let sy2 = u32_dec((scale_dim(self.y2, height)) as u32);
        out.append(sy2.as_str());
        out.append(" ");
        let sx3 = u32_dec((scale_dim(self.x3, width)) as u32);
        out.append(sx3.as_str());
        out.append(",");
        let sy3 = u32_dec((scale_dim(self.y3, height)) as u32);
        out.append(sy3.as_str());
        out.append("' fill='");
        let fill = self.color.rgba();
        out.append(fill.as_str());
        out.append("' />");
        assert(out@ =~= self.svg_spec(width as int, height as int));
        out
    }

    fn to_string(&self) -> (out: String) {
        proof {
            reveal_strlit("<T");
            reveal_strlit(",");
            reveal_strlit(">");
        }
        let mut out = String::from_str("<T");
        let c1 = coord6(self.x1);
        out.append(c1.as_str());
        out.append(",");
        let c2 = coord6(self.y1);
        out.append(c2.as_str());
        out.append(",");
        let c3 = coord6(self.x2);
        out.append(c3.as_str());
        out.append(",");
        let c4 = coord6(self.y2);
        out.append(c4.as_str());
        out.append(",");
        let c5 = coord6(self.x3);
        out.append(c5.as_str());
        out.append(",");
        let c6 = coord6(self.y3);
        out.append(c6.as_str());
        out.append(",");
        let fill = self.color.rgba();
        out.append(fill.as_str());
        out.append(">");
        assert(out@ =~= self.tag_spec());
        out
    }

    fn draw_onto(&self, canv: &mut Canvas) {
        let ghost m0 = canv@;
        proof {
            lemma_wf_dims(canv@);
        }
        let px1 = scale_dim(self.x1, canv.width);
        let py1 = scale_dim(self.y1, canv.height);
        let px2 = scale_dim(self.x2, canv.width);
        let py2 = scale_dim(self.y2, canv.height);
        let px3 = scale_dim(self.x3, canv.width);
        let py3 = scale_dim(self.y3, canv.height);
        let ghost t = spec_tri_pix(*self, m0);
        let mx12: i64 = if px1 < px2 {
            px1
        } else {
            px2
        };
        let xmin: i64 = if mx12 < px3 {
            mx12
        } else {
            px3
        };
        let hx12: i64 = if px1 > px2 {
            px1
        } else {
            px2
        };
        let hx: i64 = if hx12 > px3 {
            hx12
        } else {
            px3
        };
        let xmax: i64 = if hx < canv.width as i64 {
            hx
        } else {
            canv.width as i64
        };
        let my12: i64 = if py1 < py2 {
            py1
        } else {
            py2
        };
        let ymin: i64 = if my12 < py3 {
            my12
        } else {
            py3
        };
        let hy12: i64 = if py1 > py2 {
            py1
        } else {
            py2
        };
        let hy: i64 = if hy12 > py3 {
            hy12
        } else {
            py3
        };
        let ymax: i64 = if hy < canv.height as i64 {
            hy
        } else {
            canv.height as i64
        };
        if xmax <= xmin || ymax <= ymin {
            return ;
        }
        let mut x = xmin;
        while x < xmax
            invariant
                canv.wf(),
                self.wf(),
                canv@.width == m0.width,
                canv@.height == m0.height,
                canv@.depth == m0.depth,
                t == spec_tri_pix(*self, m0),
                0 <= t.x1 <= 0x3fff_ffff,
                0 <= t.y1 <= 0x3fff_ffff,
                0 <= t.x2 <= 0x3fff_ffff,
                0 <= t.y2 <= 0x3fff_ffff,
                0 <= t.x3 <= 0x3fff_ffff,
                0 <= t.y3 <= 0x3fff_ffff,
                px1 == t.x1 && py1 == t.y1 && px2 == t.x2 && py2 == t.y2 && px3 == t.x3 && py3
                    == t.y3,
                0 <= xmin <= x <= xmax,
                xmax <= 0x3fff_ffff,
                0 <= ymin < ymax <= 0x3fff_ffff,
                canv@ == tri_cols(
                    m0,
                    t,
                    self.color,
                    xmin as int,
                    (x - xmin) as nat,
                    ymin as int,
                    (ymax - ymin) as nat,
                ),
            decreases xmax - x,
        {
            let ghost mcol = canv@;
            let mut y = ymin;
            while y < ymax
                invariant
                    canv.wf(),
                    self.wf(),
                    canv@.width == m0.width,
                    canv@.height == m0.height,
                    canv@.depth == m0.depth,
                    0 <= t.x1 <= 0x3fff_ffff,
                    0 <= t.y1 <= 0x3fff_ffff,
                    0 <= t.x2 <= 0x3fff_ffff,
                    0 <= t.y2 <= 0x3fff_ffff,
                    0 <= t.x3 <= 0x3fff_ffff,
                    0 <= t.y3 <= 0x3fff_ffff,
                    px1 == t.x1 && py1 == t.y1 && px2 == t.x2 && py2 == t.y2 && px3 == t.x3 && py3
                        == t.y3,
                    0 <= xmin <= x < xmax,
                    xmax <= 0x3fff_ffff,
                    0 <= ymin <= y <= ymax <= 0x3fff_ffff,
                    canv@ == tri_col(mcol, t, self.color, x as int, ymin as int, (y - ymin) as nat),
                decreases ymax - y,
            {
                if tri_inside(px1, py1, px2, py2, px3, py3, x, y) {
                    canv.add_pixel(x as i32, y as i32, &self.color);
                }
                y = y + 1;
            }
            x = x + 1;
        }
        assert(canv@ == spec_draw_triangle(m0, *self));
    }
}

// ------------------------------------------------------------------
// Circle
// ------------------------------------------------------------------

#[derive(Clone, Copy, PartialEq, Eq, Structural, Debug, Hash)]
pub struct Circle {
    pub x: u16,
    pub y: u16,
    pub rad: u16,
    pub color: Color,
}

/// A nonnegative loop measure: `i` clipped at zero.
pub open spec fn clip0(i: int) -> nat {
    if i > 0 {
        i as nat
    } else {
        0
    }
}

/// One state of the midpoint circle walk: while `x >= y`, four
/// eight-way-symmetric horizontal spans are composited and the integer
/// error term advanced, exactly as the rasterizer steps.
pub open spec fn circle_fast_loop(
    m: CanvasModel,
    color: Color,
    cx: int,
    cy: int,
    rad: int,
    x: int,
    y: int,
    dx: int,
    dy: int,
    err: int,
) -> CanvasModel
    decreases clip0(x - y + 1),
{
    if x < y {
        m
    } else {
        let m1 = line_add_model(m, cx - x, cx + x, cy + y, color);
        let m2 = line_add_model(m1, cx - x, cx + x, cy - y, color);
        let m3 = line_add_model(m2, cx - y, cx + y, cy + x, color);
        let m4 = line_add_model(m3, cx - y, cx + y, cy - x, color);
        let yb = if err <= 0 {
            y + 1
        } else {
            y
        };
        let dyb = if err <= 0 {
            dy + 2
        } else {
            dy
        };
        let errb = if err <= 0 {
            err + dy
        } else {
            err
        };
        let xb = if errb > 0 {
            x - 1
        } else {
            x
        };
        let dxb = if errb > 0 {
            dx + 2
        } else {
            dx
        };
        let errc = if errb > 0 {
            errb + dxb - 2 * rad
        } else {
            errb
        };
        circle_fast_loop(m4, color, cx, cy, rad, xb, yb, dxb, dyb, errc)
    }
}

/// The effect of the fast circle rasterizer: the midpoint walk started
/// from the scaled radius and center.
pub open spec fn spec_draw_circle_fast(m: CanvasModel, c: Circle) -> CanvasModel {
    let rad = spec_scaled(c.rad as int, m.width);
    let cx = spec_scaled(c.x as int, m.width);
    let cy = spec_scaled(c.y as int, m.height);
    circle_fast_loop(m, c.color, cx, cy, rad, rad - 1, 0, 1, 1, 1 - 2 * rad)
}

/// Composites `color` onto those of the `n` offsets `(x, ylo) .. (x,
/// ylo + n - 1)` that lie strictly inside the disc of squared radius
/// `radrad` around the origin, shifted to the center `(cx, cy)`.
pub open spec fn circle_slow_col(
    m: CanvasModel,
    color: Color,
    cx: int,
    cy: int,
    radrad: int,
    x: int,
    ylo: int,
    n: nat,
) -> CanvasModel
    decreases n,
{
    if n == 0 {
        m
    } else {
        let prev = circle_slow_col(m, color, cx, cy, radrad, x, ylo, (n - 1) as nat);
        let yy = ylo + n - 1;
        if x * x + yy * yy < radrad {
            composite_pixel(prev, cx + x, cy + yy, color)
        } else {
            prev
        }
    }
}

/// The disc test applied over `ncols` columns of offsets.
pub open spec fn circle_slow_cols(
    m: CanvasModel,
    color: Color,
    cx: int,
    cy: int,
    radrad: int,
    xlo: int,
    ncols: nat,
    ylo: int,
    nrows: nat,
) -> CanvasModel
    decreases ncols,
{
    if ncols == 0 {
        m
    } else {
        circle_slow_col(
            circle_slow_cols(m, color, cx, cy, radrad, xlo, (ncols - 1) as nat, ylo, nrows),
            color,
            cx,
            cy,
            radrad,
            xlo + ncols - 1,
            ylo,
            nrows,
        )
    }
}

/// The effect of the brute-force circle oracle: every offset in the
/// radius bounding box tested against `dx*dx + dy*dy < rad*rad` and
/// composited when inside both the disc and the canvas.
pub open spec fn spec_draw_circle_slow(m: CanvasModel, c: Circle) -> CanvasModel {
    let rad = spec_scaled(c.rad as int, m.width);
    let cx = spec_scaled(c.x as int, m.width);
    let cy = spec_scaled(c.y as int, m.height);
    if rad <= 0 {
        m
    } else {
        circle_slow_cols(m, c.color, cx, cy, rad * rad, -rad, (2 * rad) as nat, -rad, (
        2 * rad) as nat)
    }
}

/// Filling a tested column preserves dimensions and well-formedness.
pub proof fn lemma_circle_slow_col_wf(
    m: CanvasModel,
    color: Color,
    cx: int,
    cy: int,
    radrad: int,
    x: int,
    ylo: int,
    n: nat,
)
    requires
        m.wf(),
    ensures
        circle_slow_col(m, color, cx, cy, radrad, x, ylo, n).wf(),
        circle_slow_col(m, color, cx, cy, radrad, x, ylo, n).width == m.width,
        circle_slow_col(m, color, cx, cy, radrad, x, ylo, n).height == m.height,
        circle_slow_col(m, color, cx, cy, radrad, x, ylo, n).depth == m.depth,
    decreases n,
{
    if n > 0 {
        lemma_circle_slow_col_wf(m, color, cx, cy, radrad, x, ylo, (n - 1) as nat);
        lemma_composite_pixel_wf(
            circle_slow_col(m, color, cx, cy, radrad, x, ylo, (n - 1) as nat),
            cx + x,
            cy + ylo + n - 1,
            color,
        );
    }
}

impl Circle {
    /// A freshly randomized circle: position and radius uniform on the
    /// grid, color channels uniform over the byte range, opacity
    /// uniform on the grid.
    pub fn random() -> (s: Circle)
        ensures
            s.wf(),
    {
        Circle {
            x: rand(),
            y: rand(),
            rad: rand(),
            color: Color { r: randu8(), g: randu8(), b: randu8(), opacity: rand() },
        }
    }

    /// The brute-force rasterizer: iterates the radius bounding box and
    /// tests `dx*dx + dy*dy < rad*rad` per pixel. The correctness
    /// oracle the fast rasterizer is compared against; the fast walk's
    /// discretization may differ from this disc by a boundary ring.
    pub fn draw_onto_slow(&self, canv: &mut Canvas)
        requires
            self.wf(),
            old(canv).wf(),
        ensures
            final(canv).wf(),
            final(canv)@ == spec_draw_circle_slow(old(canv)@, *self),
    {
        let ghost m0 = canv@;
        proof {
            lemma_wf_dims(canv@);
        }
        let rad = scale_dim(self.rad, canv.width);
        let cx = scale_dim(self.x, canv.width);
        let cy = scale_dim(self.y, canv.height);
        if rad <= 0 {
            return ;
        }
        proof {
            lemma_mul_bound(rad as int, rad as int, 0x3fff_ffff);
        }
        let radrad: i64 = rad * rad;
        let mut x: i64 = -rad;
        while x < rad
            invariant
                canv.wf(),
                self.wf(),
                canv@.width == m0.width,
                canv@.height == m0.height,
                canv@.depth == m0.depth,
                1 <= rad <= 0x3fff_ffff,
                radrad == rad * rad,
                m0.width <= 0x3fff_ffff,
                m0.height <= 0x3fff_ffff,
                0 <= cx <= 0x3fff_ffff,
                0 <= cy <= 0x3fff_ffff,
                -rad <= x <= rad,
                canv@ == circle_slow_cols(
                    m0,
                    self.color,
                    cx as int,
                    cy as int,
                    radrad as int,
                    -rad as int,
                    (x + rad) as nat,
                    -rad as int,
                    (2 * rad) as nat,
                ),
            decreases rad - x,
        {
            let ghost mcol = canv@;
            let mut y: i64 = -rad;
            while y < rad
                invariant
                    canv.wf(),
                    self.wf(),
                    canv@.width == m0.width,
                    canv@.height == m0.height,
                    canv@.depth == m0.depth,
                    1 <= rad <= 0x3fff_ffff,
                    radrad == rad * rad,
                    m0.width <= 0x3fff_ffff,
                    m0.height <= 0x3fff_ffff,
                    0 <= cx <= 0x3fff_ffff,
                    0 <= cy <= 0x3fff_ffff,
                    -rad <= x < rad,
                    -rad <= y <= rad,
                    canv@ == circle_slow_col(
                        mcol,
                        self.color,
                        cx as int,
                        cy as int,
                        radrad as int,
                        x as int,
                        -rad as int,
                        (y + rad) as nat,
                    ),
                decreases rad - y,
            {
                proof {
                    lemma_mul_bound(x as int, x as int, 0x3fff_ffff);
                    lemma_mul_bound(y as int, y as int, 0x3fff_ffff);
                }
                if x * x + y * y < radrad {
                    let px = cx + x;
                    let py = cy + y;
                    if px >= 0 && px < canv.width as i64 && py >= 0 && py < canv.height as i64 {
                        canv.add_pixel(px as i32, py as i32, &self.color);
                    } else {
                        proof {
                            assert(composite_pixel(canv@, px as int, py as int, self.color)
                                == canv@);
                        }
                    }
                }
                y = y + 1;
            }
            x = x + 1;
        }
        assert(canv@ == spec_draw_circle_slow(m0, *self));
    }
}

impl ShapeBehaviour for Circle {
    open spec fn wf(&self) -> bool {
        &&& self.x <= 1000
        &&& self.y <= 1000
        &&& self.rad <= 1000
        &&& self.color.wf()
    }

    open spec fn drawn(&self, m: CanvasModel) -> CanvasModel {
        spec_draw_circle_fast(m, *self)
    }

    open spec fn mutated_from(&self, pre: &Self) -> bool {
        ||| (self.x == pre.x && self.y == pre.y && self.rad == pre.rad && color_mutated_from(
            self.color,
            pre.color,
        ))
        ||| (coord_nudged(self.x, pre.x) && self.y == pre.y && self.rad == pre.rad && self.color
            == pre.color)
        ||| (self.x == pre.x && coord_nudged(self.y, pre.y) && self.rad == pre.rad && self.color
            == pre.color)
        ||| (self.x == pre.x && self.y == pre.y && is_nudged(
            self.rad as int,
            pre.rad as int,
            COORD_NUDGE_RANGE as int,
            RADIUS_FLOOR as int,
            1000,
        ) && self.color == pre.color)
    }

    open spec fn svg_spec(&self, width: int, height: int) -> Seq<char> {
        "<circle cx='"@ + spec_dec(spec_scaled(self.x as int, width)) + "' cy='"@ + spec_dec(
            spec_scaled(self.y as int, height),
        ) + "' r='"@ + spec_dec(spec_scaled(self.rad as int, width)) + "' fill='"@ + spec_rgba(
            self.color,
        ) + "' />"@
    }

    open spec fn tag_spec(&self) -> Seq<char> {
        "<C"@ + spec_coord6(self.x as int) + ","@ + spec_coord6(self.y as int) + ","@
            + spec_coord3(self.rad as int) + ","@ + spec_rgba(self.color) + ">"@
    }

    fn mutate(&mut self) {
        let k = rand_below(10);
        if k <= 4 {
            self.color = self.color.mutate();
        } else if k <= 6 {
            self.x = rand_adjust(self.x, COORD_NUDGE_RANGE, 0, 1000);
        } else if k <= 8 {
            self.y = rand_adjust(self.y, COORD_NUDGE_RANGE, 0, 1000);
        } else {
            self.rad = rand_adjust(self.rad, COORD_NUDGE_RANGE, RADIUS_FLOOR, 1000);
        }
    }

    fn svg(&self, width: usize, height: usize) -> (out: String) {
        proof {
            reveal_strlit("<circle cx='");
            reveal_strlit("' cy='");
            reveal_strlit("' r='");
            reveal_strlit("' fill='");
            reveal_strlit("' />");
        }
        let mut out = String::from_str("<circle cx='");
        let sx = u32_dec((scale_dim(self.x, width)) as u32);
        out.append(sx.as_str());
        out.append("' cy='");
        let sy = u32_dec((scale_dim(self.y, height)) as u32);
        out.append(sy.as_str());
        out.append("' r='");
        let sr = u32_dec((scale_dim(self.rad, width)) as u32);
        out.append(sr.as_str());
        out.append("' fill='");
        let fill = self.color.rgba();
        out.append(fill.as_str());
        out.append("' />");
        assert(out@ =~= self.svg_spec(width as int, height as int));
        out
    }

    fn to_string(&self) -> (out: String) {
        proof {
            reveal_strlit("<C");
            reveal_strlit(",");
            reveal_strlit(">");
        }
        let mut out = String::from_str("<C");
        let cx = coord6(self.x);
        out.append(cx.as_str());
        out.append(",");
        let cy = coord6(self.y);
        out.append(cy.as_str());
        out.append(",");
        let cr = coord3(self.rad);
        out.append(cr.as_str());
        out.append(",");
        let fill = self.color.rgba();
        out.append(fill.as_str());
        out.append(">");
        assert(out@ =~= self.tag_spec());
        out
    }

    fn draw_onto(&self, canv: &mut Canvas) {
        let ghost m0 = canv@;
        proof {
            lemma_wf_dims(canv@);
        }
        let rad = scale_dim(self.rad, canv.width);
        let cx = scale_dim(self.x, canv.width);
        let cy = scale_dim(self.y, canv.height);
        let mut x: i64 = rad - 1;
        let mut y: i64 = 0;
        let mut dx: i64 = 1;
        let mut dy: i64 = 1;
        let mut err: i64 = 1 - 2 * rad;
        while x >= y
            invariant
                canv.wf(),
                self.wf(),
                canv@.width == m0.width,
                canv@.height == m0.height,
                canv@.depth == m0.depth,
                0 <= rad <= 0x3fff_ffff,
                m0.width <= 0x3fff_ffff,
                m0.height <= 0x3fff_ffff,
                0 <= cx <= 0x3fff_ffff,
                0 <= cy <= 0x3fff_ffff,
                -1 <= x <= rad - 1,
                0 <= y <= x + 2,
                y <= rad,
                dy == 2 * y + 1,
                dx == 2 * (rad - 1 - x) + 1,
                1 - 2 * rad <= err,
                err <= 2 * y + 4,
                x >= 0 ==> err <= 2 * y + 2,
                circle_fast_loop(
                    canv@,
                    self.color,
                    cx as int,
                    cy as int,
                    rad as int,
                    x as int,
                    y as int,
                    dx as int,
                    dy as int,
                    err as int,
                ) == spec_draw_circle_fast(m0, *self),
            decreases clip0(x - y + 1),
        {
            let ghost ma = canv@;
            canv.line_add((cx - x) as i32, (cx + x) as i32, (cy + y) as i32, &self.color);
            let ghost mb = canv@;
            canv.line_add((cx - x) as i32, (cx + x) as i32, (cy - y) as i32, &self.color);
            let ghost mc = canv@;
            canv.line_add((cx - y) as i32, (cx + y) as i32, (cy + x) as i32, &self.color);
            let ghost md = canv@;
            canv.line_add((cx - y) as i32, (cx + y) as i32, (cy - x) as i32, &self.color);
            proof {
                lemma_line_add_model_wf(ma, cx - x as int, cx + x as int, cy + y as int, self.color);
                lemma_line_add_model_wf(mb, cx - x as int, cx + x as int, cy - y as int, self.color);
                lemma_line_add_model_wf(mc, cx - y as int, cx + y as int, cy + x as int, self.color);
                lemma_line_add_model_wf(md, cx - y as int, cx + y as int, cy - x as int, self.color);
            }
            if err <= 0 {
                y = y + 1;
                err = err + dy;
                dy = dy + 2;
            }
            if err > 0 {
                x = x - 1;
                dx = dx + 2;
                err = err + dx - 2 * rad;
            }
        }
        assert(canv@ == spec_draw_circle_fast(m0, *self));
    }
}

// ------------------------------------------------------------------
// Shape: the closed variant set
// ------------------------------------------------------------------

#[derive(Clone, Copy, PartialEq, Eq, Structural, Debug, Hash)]
pub enum Shape {
    Circle(Circle),
    Rect(Rect),
    Triangle(Triangle),
}

/// All attributes of the variant lie on their grids.
pub open spec fn shape_wf(s: Shape) -> bool {
    match s {
        Shape::Circle(c) => c.wf(),
        Shape::Rect(r) => r.wf(),
        Shape::Triangle(t) => t.wf(),
    }
}

/// The canvas that drawing one shape onto `m` produces.
pub open spec fn draw_shape(m: CanvasModel, s: Shape) -> CanvasModel {
    match s {
        Shape::Circle(c) => c.drawn(m),
        Shape::Rect(r) => r.drawn(m),
        Shape::Triangle(t) => t.drawn(m),
    }
}

/// How a mutated shape may relate to the shape it came from: the same
/// variant with exactly one attribute resampled.
pub open spec fn shape_mutated_from(post: Shape, pre: Shape) -> bool {
    match (post, pre) {
        (Shape::Circle(c2), Shape::Circle(c1)) => c2.mutated_from(&c1),
        (Shape::Rect(r2), Shape::Rect(r1)) => r2.mutated_from(&r1),
        (Shape::Triangle(t2), Shape::Triangle(t1)) => t2.mutated_from(&t1),
        _ => false,
    }
}

/// The vector markup of one shape.
pub open spec fn shape_svg_spec(s: Shape, width: int, height: int) -> Seq<char> {
    match s {
        Shape::Circle(c) => c.svg_spec(width, height),
        Shape::Rect(r) => r.svg_spec(width, height),
        Shape::Triangle(t) => t.svg_spec(width, height),
    }
}

/// The canonical tag of one shape.
pub open spec fn shape_tag_spec(s: Shape) -> Seq<char> {
    match s {
        Shape::Circle(c) => c.tag_spec(),
        Shape::Rect(r) => r.tag_spec(),
        Shape::Triangle(t) => t.tag_spec(),
    }
}

/// Filling triangle columns preserves dimensions and well-formedness.
pub proof fn lemma_tri_cols_wf(
    m: CanvasModel,
    t: TriPix,
    color: Color,
    xlo: int,
    ncols: nat,
    ylo: int,
    nrows: nat,
)
    requires
        m.wf(),
    ensures
        tri_cols(m, t, color, xlo, ncols, ylo, nrows).wf(),
        tri_cols(m, t, color, xlo, ncols, ylo, nrows).width == m.width,
        tri_cols(m, t, color, xlo, ncols, ylo, nrows).height == m.height,
        tri_cols(m, t, color, xlo, ncols, ylo, nrows).depth == m.depth,
    decreases ncols,
{
    if ncols > 0 {
        lemma_tri_cols_wf(m, t, color, xlo, (ncols - 1) as nat, ylo, nrows);
        lemma_tri_col_wf(
            tri_cols(m, t, color, xlo, (ncols - 1) as nat, ylo, nrows),
            t,
            color,
            xlo + ncols - 1,
            ylo,
            nrows,
        );
    }
}

/// The disc-tested columns preserve dimensions and well-formedness.
pub proof fn lemma_circle_slow_cols_wf(
    m: CanvasModel,
    color: Color,
    cx: int,
    cy: int,
    radrad: int,
    xlo: int,
    ncols: nat,
    ylo: int,
    nrows: nat,
)
    requires
        m.wf(),
    ensures
        circle_slow_cols(m, color, cx, cy, radrad, xlo, ncols, ylo, nrows).wf(),
        circle_slow_cols(m, color, cx, cy, radrad, xlo, ncols, ylo, nrows).width == m.width,
        circle_slow_cols(m, color, cx, cy, radrad, xlo, ncols, ylo, nrows).height == m.height,
        circle_slow_cols(m, color, cx, cy, radrad, xlo, ncols, ylo, nrows).depth == m.depth,
    decreases ncols,
{
    if ncols > 0 {
        lemma_circle_slow_cols_wf(m, color, cx, cy, radrad, xlo, (ncols - 1) as nat, ylo, nrows);
        lemma_circle_slow_col_wf(
            circle_slow_cols(m, color, cx, cy, radrad, xlo, (ncols - 1) as nat, ylo, nrows),
            color,
            cx,
            cy,
            radrad,
            xlo + ncols - 1,
            ylo,
            nrows,
        );
    }
}

/// The midpoint walk preserves dimensions and well-formedness.
pub proof fn lemma_circle_fast_loop_wf(
    m: CanvasModel,
    color: Color,
    cx: int,
    cy: int,
    rad: int,
    x: int,
    y: int,
    dx: int,
    dy: int,
    err: int,
)
    requires
        m.wf(),
    ensures
        circle_fast_loop(m, color, cx, cy, rad, x, y, dx, dy, err).wf(),
        circle_fast_loop(m, color, cx, cy, rad, x, y, dx, dy, err).width == m.width,
        circle_fast_loop(m, color, cx, cy, rad, x, y, dx, dy, err).height == m.height,
        circle_fast_loop(m, color, cx, cy, rad, x, y, dx, dy, err).depth == m.depth,
    decreases clip0(x - y + 1),
{
    if x >= y {
        let m1 = line_add_model(m, cx - x, cx + x, cy + y, color);
        let m2 = line_add_model(m1, cx - x, cx + x, cy - y, color);
        let m3 = line_add_model(m2, cx - y, cx + y, cy + x, color);
        let m4 = line_add_model(m3, cx - y, cx + y, cy - x, color);
        lemma_line_add_model_wf(m, cx - x, cx + x, cy + y, color);
        lemma_line_add_model_wf(m1, cx - x, cx + x, cy - y, color);
        lemma_line_add_model_wf(m2, cx - y, cx + y, cy + x, color);
        lemma_line_add_model_wf(m3, cx - y, cx + y, cy - x, color);
        let yb = if err <= 0 {
            y + 1
        } else {
            y
        };
        let dyb = if err <= 0 {
            dy + 2
        } else {
            dy
        };
        let errb = if err <= 0 {
            err + dy
        } else {
            err
        };
        let xb = if errb > 0 {
            x - 1
        } else {
            x
        };
        let dxb = if errb > 0 {
            dx + 2
        } else {
            dx
        };
        let errc = if errb > 0 {
            errb + dxb - 2 * rad
        } else {
            errb
        };
        lemma_circle_fast_loop_wf(m4, color, cx, cy, rad, xb, yb, dxb, dyb, errc);
    }
}

/// Drawing any shape preserves dimensions and well-formedness.
pub proof fn lemma_draw_shape_wf(m: CanvasModel, s: Shape)
    requires
        m.wf(),
    ensures
        draw_shape(m, s).wf(),
        draw_shape(m, s).width == m.width,
        draw_shape(m, s).height == m.height,
        draw_shape(m, s).depth == m.depth,
{
    match s {
        Shape::Circle(c) => {
            let rad = spec_scaled(c.rad as int, m.width);
            let cx = spec_scaled(c.x as int, m.width);
            let cy = spec_scaled(c.y as int, m.height);
            lemma_circle_fast_loop_wf(m, c.color, cx, cy, rad, rad - 1, 0, 1, 1, 1 - 2 * rad);
        },
        Shape::Rect(r) => {
            let x1 = spec_scaled(r.x as int, m.width);
            let y1 = spec_scaled(r.y as int, m.height);
            let x2 = x1 + spec_scaled(r.width as int, m.width);
            let y2 = y1 + spec_scaled(r.height as int, m.height);
            let xmin = if x1 > 0 {
                x1
            } else {
                0
            };
            let xmax = if x2 < m.width {
                x2
            } else {
                m.width
            };
            let ymin = if y1 > 0 {
                y1
            } else {
                0
            };
            let ymax = if y2 < m.height {
                y2
            } else {
                m.height
            };
            if !(xmax <= xmin || ymax <= ymin) {
                lemma_fill_rect_wf(
                    m,
                    xmin,
                    (xmax - xmin) as nat,
                    ymin,
                    (ymax - ymin) as nat,
                    r.color,
                );
            }
        },
        Shape::Triangle(t) => {
            let tp = spec_tri_pix(t, m);
            let mx12 = if tp.x1 < tp.x2 {
                tp.x1
            } else {
                tp.x2
            };
            let xmin = if mx12 < tp.x3 {
                mx12
            } else {
                tp.x3
            };
            let hx12 = if tp.x1 > tp.x2 {
                tp.x1
            } else {
                tp.x2
            };
            let hx = if hx12 > tp.x3 {
                hx12
            } else {
                tp.x3
            };
            let xmax = if hx < m.width {
                hx
            } else {
                m.width
            };
            let my12 = if tp.y1 < tp.y2 {
                tp.y1
            } else {
                tp.y2
            };
            let ymin = if my12 < tp.y3 {
                my12
            } else {
                tp.y3
            };
            let hy12 = if tp.y1 > tp.y2 {
                tp.y1
            } else {
                tp.y2
            };
            let hy = if hy12 > tp.y3 {
                hy12
            } else {
                tp.y3
            };
            let ymax = if hy < m.height {
                hy
            } else {
                m.height
            };
            if !(xmax <= xmin || ymax <= ymin) {
                lemma_tri_cols_wf(
                    m,
                    tp,
                    t.color,
                    xmin,
                    (xmax - xmin) as nat,
                    ymin,
                    (ymax - ymin) as nat,
                );
            }
        },
    }
}

impl Shape {
    /// A freshly randomized shape: a circle five times in ten, a
    /// triangle three, a rectangle two.
    pub fn random() -> (s: Shape)
        ensures
            shape_wf(s),
    {
        let k = rand_below(10);
        if k <= 4 {
            Shape::Circle(Circle::random())
        } else if k <= 7 {
            Shape::Triangle(Triangle::random())
        } else {
            Shape::Rect(Rect::random())
        }
    }

    /// Resamples one attribute of the variant.
    pub fn mutate(&mut self)
        requires
            shape_wf(*old(self)),
        ensures
            shape_wf(*final(self)),
            shape_mutated_from(*final(self), *old(self)),
    {
        match *self {
            Shape::Triangle(mut t) => {
                t.mutate();
                *self = Shape::Triangle(t);
            },
            Shape::Rect(mut r) => {
                r.mutate();
                *self = Shape::Rect(r);
            },
            Shape::Circle(mut c) => {
                c.mutate();
                *self = Shape::Circle(c);
            },
        }
    }

    /// The vector markup of the variant.
    pub fn svg(&self, width: usize, height: usize) -> (out: String)
        requires
            shape_wf(*self),
            width <= 0x3fff_ffff,
            height <= 0x3fff_ffff,
        ensures
            out@ == shape_svg_spec(*self, width as int, height as int),
    {
        match self {
            Shape::Triangle(t) => t.svg(width, height),
            Shape::Rect(r) => r.svg(width, height),
            Shape::Circle(c) => c.svg(width, height),
        }
    }

    /// The canonical tag of the variant.
    pub fn to_string(&self) -> (out: String)
        requires
            shape_wf(*self),
        ensures
            out@ == shape_tag_spec(*self),
    {
        match self {
            Shape::Triangle(t) => t.to_string(),
            Shape::Rect(r) => r.to_string(),
            Shape::Circle(c) => c.to_string(),
        }
    }

    /// Rasterizes the variant onto the canvas.
    pub fn draw_onto(&self, canv: &mut Canvas)
        requires
            shape_wf(*self),
            old(canv).wf(),
        ensures
            final(canv).wf(),
            final(canv)@ == draw_shape(old(canv)@, *self),
    {
        match self {
            Shape::Triangle(t) => t.draw_onto(canv),
            Shape::Rect(r) => r.draw_onto(canv),
            Shape::Circle(c) => c.draw_onto(canv),
        }
    }
}

} // verus!
