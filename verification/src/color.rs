//! An RGBA-like color value with alpha-compositing arithmetic.
//!
//! Channels are bytes; the opacity is a fixed-point fraction in
//! thousandths, so `opacity == OPACITY_SCALE` is fully opaque and
//! `opacity == 0` fully transparent. Equality and hashing are therefore
//! exact on the quantization grid, with no round-off to compensate for.

use vstd::prelude::*;
use crate::rando::{rand_below, rand_adjust, rand_color_adjust, is_nudged, is_color_nudged};
use crate::textfmt::{spec_dec, spec_opacity4, u32_dec, opacity4};

verus! {

/// One unit of opacity (or of a normalized coordinate) is
/// 1/OPACITY_SCALE; values range over 0..=OPACITY_SCALE.
pub const OPACITY_SCALE: u16 = 1000;

/// The nudge range of a mutated color channel, in thousandths of the
/// full byte range.
pub const COLOR_NUDGE_RANGE: u16 = 500;

/// The nudge range of a mutated opacity, in thousandths.
pub const OPACITY_NUDGE_RANGE: u16 = 100;

#[derive(Clone, Copy, PartialEq, Eq, Structural, Debug, Hash)]
pub struct Color {
    pub r: u8,
    pub g: u8,
    pub b: u8,
    /// Blend weight in thousandths, 0..=OPACITY_SCALE.
    pub opacity: u16,
}

impl Color {
    /// A color is well formed when its opacity lies on the grid.
    pub open spec fn wf(self) -> bool {
        self.opacity <= OPACITY_SCALE
    }

    /// The `rgba(r,g,b,o)` markup text of this color, the opacity with
    /// four decimal places.
    pub fn rgba(&self) -> (out: String)
        requires
            self.wf(),
        ensures
            out@ == spec_rgba(*self),
    {
        proof {
            reveal_strlit("rgba(");
            reveal_strlit(",");
            reveal_strlit(")");
        }
        let mut out = String::from_str("rgba(");
        let r = u32_dec(self.r as u32);
        out.append(r.as_str());
        out.append(",");
        let g = u32_dec(self.g as u32);
        out.append(g.as_str());
        out.append(",");
        let b = u32_dec(self.b as u32);
        out.append(b.as_str());
        out.append(",");
        let o = opacity4(self.opacity);
        out.append(o.as_str());
        out.append(")");
        assert(out@ =~= spec_rgba(*self));
        out
    }

    /// Markup text of the color as drawn at the given channel depth: a
    /// grayscale canvas repeats the red channel for all three.
    pub fn svg(&self, depth: usize) -> (out: String)
        requires
            self.wf(),
        ensures
            out@ == spec_color_svg(*self, depth as int),
    {
        if depth == 1 {
            proof {
                reveal_strlit("rgba(");
                reveal_strlit(",");
                reveal_strlit(")");
            }
            let mut out = String::from_str("rgba(");
            let r = u32_dec(self.r as u32);
            out.append(r.as_str());
            out.append(",");
            let r2 = u32_dec(self.r as u32);
            out.append(r2.as_str());
            out.append(",");
            let r3 = u32_dec(self.r as u32);
            out.append(r3.as_str());
            out.append(",");
            let o = opacity4(self.opacity);
            out.append(o.as_str());
            out.append(")");
            assert(out@ =~= spec_color_svg(*self, depth as int));
            out
        } else {
            self.rgba()
        }
    }

    /// A copy with exactly one of the red, green or blue channels, or
    /// the opacity, resampled: the channel nudged by a bounded signed
    /// random delta and saturated to its range, or the opacity nudged
    /// within the grid.
    pub fn mutate(&self) -> (c: Color)
        requires
            self.wf(),
        ensures
            c.wf(),
            color_mutated_from(c, *self),
    {
        let k = rand_below(100);
        if k <= 25 {
            Color {
                r: rand_color_adjust(self.r, COLOR_NUDGE_RANGE),
                g: self.g,
                b: self.b,
                opacity: self.opacity,
            }
        } else if k <= 50 {
            Color {
                r: self.r,
                g: rand_color_adjust(self.g, COLOR_NUDGE_RANGE),
                b: self.b,
                opacity: self.opacity,
            }
        } else if k <= 75 {
            Color {
                r: self.r,
                g: self.g,
                b: rand_color_adjust(self.b, COLOR_NUDGE_RANGE),
                opacity: self.opacity,
            }
        } else {
            Color {
                r: self.r,
                g: self.g,
                b: self.b,
                opacity: rand_adjust(self.opacity, OPACITY_NUDGE_RANGE, 0, 1000),
            }
        }
    }

    /// Alpha-composites this color's three channels in place onto the
    /// buffer entries at `i`, `i + 1` and `i + 2`, the opacity driving
    /// the blend weight for all of them.
    pub fn add_to_vec(&self, vec: &mut Vec<u8>, i: usize)
        requires
            self.wf(),
            i + 3 <= old(vec)@.len(),
        ensures
            final(vec)@ == old(vec)@.update(
                i as int,
                spec_color_add(old(vec)@[i as int] as int, self.r as int, self.opacity as int) as u8,
            ).update(
                i + 1,
                spec_color_add(old(vec)@[i + 1] as int, self.g as int, self.opacity as int) as u8,
            ).update(
                i + 2,
                spec_color_add(old(vec)@[i + 2] as int, self.b as int, self.opacity as int) as u8,
            ),
    {
        let n = vec.len();
        proof {
            assert(i + 3 <= n);
            lemma_color_add_range(vec@[i as int] as int, self.r as int, self.opacity as int);
        }
        let v0 = color_add(vec[i], self.r, self.opacity);
        vec.set(i, v0);
        let v1 = color_add(vec[i + 1], self.g, self.opacity);
        vec.set(i + 1, v1);
        let v2 = color_add(vec[i + 2], self.b, self.opacity);
        vec.set(i + 2, v2);
    }

    /// Opaque black, the sentinel returned for out-of-range pixel reads.
    pub fn black() -> (c: Color)
        ensures
            c == (Color { r: 0, g: 0, b: 0, opacity: OPACITY_SCALE }),
            c.wf(),
    {
        Color { r: 0, g: 0, b: 0, opacity: OPACITY_SCALE }
    }
}

/// How a mutated color may relate to the color it came from: exactly
/// one of the four attributes replaced by a bounded clamped nudge of
/// itself, the other three unchanged.
pub open spec fn color_mutated_from(post: Color, pre: Color) -> bool {
    &&& post.wf()
    &&& {
        ||| (is_color_nudged(post.r as int, pre.r as int, COLOR_NUDGE_RANGE as int) && post.g
            == pre.g && post.b == pre.b && post.opacity == pre.opacity)
        ||| (post.r == pre.r && is_color_nudged(
            post.g as int,
            pre.g as int,
            COLOR_NUDGE_RANGE as int,
        ) && post.b == pre.b && post.opacity == pre.opacity)
        ||| (post.r == pre.r && post.g == pre.g && is_color_nudged(
            post.b as int,
            pre.b as int,
            COLOR_NUDGE_RANGE as int,
        ) && post.opacity == pre.opacity)
        ||| (post.r == pre.r && post.g == pre.g && post.b == pre.b && is_nudged(
            post.opacity as int,
            pre.opacity as int,
            OPACITY_NUDGE_RANGE as int,
            0,
            1000,
        ))
    }
}

/// The `rgba(r,g,b,o)` markup text of a color.
pub open spec fn spec_rgba(c: Color) -> Seq<char> {
    "rgba("@ + spec_dec(c.r as int) + ","@ + spec_dec(c.g as int) + ","@ + spec_dec(c.b as int)
        + ","@ + spec_opacity4(c.opacity as int) + ")"@
}

/// The markup text of a color at a channel depth: grayscale repeats the
/// red channel.
pub open spec fn spec_color_svg(c: Color, depth: int) -> Seq<char> {
    if depth == 1 {
        "rgba("@ + spec_dec(c.r as int) + ","@ + spec_dec(c.r as int) + ","@ + spec_dec(
            c.r as int,
        ) + ","@ + spec_opacity4(c.opacity as int) + ")"@
    } else {
        spec_rgba(c)
    }
}

/// Blends an incoming channel intensity `c2` over an existing one `c`,
/// weighted by `opacity` thousandths: `c*(1-o) + c2*o`, truncated to the
/// grid.
pub open spec fn spec_color_add(c: int, c2: int, opacity: int) -> int {
    (c * (OPACITY_SCALE - opacity) + c2 * opacity) / (OPACITY_SCALE as int)
}

/// The blend of two byte channels stays in byte range.
pub proof fn lemma_color_add_range(c: int, c2: int, opacity: int)
    requires
        0 <= c <= 255,
        0 <= c2 <= 255,
        0 <= opacity <= OPACITY_SCALE,
    ensures
        0 <= spec_color_add(c, c2, opacity) <= 255,
{
    let s = OPACITY_SCALE as int;
    assert(c * (s - opacity) + c2 * opacity <= 255 * s) by (nonlinear_arith)
        requires
            0 <= c <= 255,
            0 <= c2 <= 255,
            0 <= opacity <= s,
            s == 1000,
    ;
    assert(c * (s - opacity) + c2 * opacity >= 0) by (nonlinear_arith)
        requires
            0 <= c,
            0 <= c2,
            0 <= opacity <= s,
    ;
}

/// Compositing a fully opaque channel replaces the existing value, and a
/// fully transparent one leaves it unchanged. Replacement makes opaque
/// compositing idempotent: blending the same channel at full opacity
/// twice equals blending it once.
pub proof fn lemma_color_add_boundary(c: int, c2: int)
    requires
        0 <= c <= 255,
        0 <= c2 <= 255,
    ensures
        spec_color_add(c, c2, OPACITY_SCALE as int) == c2,
        spec_color_add(c, c2, 0) == c,
        spec_color_add(spec_color_add(c, c2, OPACITY_SCALE as int), c2, OPACITY_SCALE as int)
            == spec_color_add(c, c2, OPACITY_SCALE as int),
{
}

/// Alpha-composites one channel: `c*(1-opacity) + c2*opacity` on the
/// thousandths grid, truncated.
pub fn color_add(c: u8, c2: u8, opacity: u16) -> (r: u8)
    requires
        opacity <= OPACITY_SCALE,
    ensures
        r == spec_color_add(c as int, c2 as int, opacity as int),
{
    proof {
        lemma_color_add_range(c as int, c2 as int, opacity as int);
    }
    let num: u32 = (c as u32) * ((OPACITY_SCALE - opacity) as u32) + (c2 as u32) * (opacity as u32);
    (num / (OPACITY_SCALE as u32)) as u8
}

} // verus!
