//! An ordered sequence of shapes acting as a genome.
//!
//! Insertion order is semantically meaningful: later entries paint over
//! earlier ones (painter's algorithm), so the order is never silently
//! changed except through the explicit swap operation. A slice is the
//! prefix of a given length as an independent copy.

use vstd::prelude::*;
use crate::canvas::{Canvas, CanvasModel};
use crate::rando::{rand_below, choose_index};
use crate::shapes::{Shape, shape_wf, draw_shape, shape_mutated_from, shape_svg_spec,
    shape_tag_spec, lemma_draw_shape_wf};
use crate::textfmt::{spec_dec, u32_dec};

verus! {

/// Every shape of the sequence lies on its grids.
pub open spec fn list_wf(s: Seq<Shape>) -> bool {
    forall|i: int| 0 <= i < s.len() ==> shape_wf(#[trigger] s[i])
}

/// The canvas that drawing every shape of `shapes` in order onto `m`
/// produces: the painter's algorithm.
pub open spec fn draw_list(m: CanvasModel, shapes: Seq<Shape>) -> CanvasModel
    decreases shapes.len(),
{
    if shapes.len() == 0 {
        m
    } else {
        draw_shape(draw_list(m, shapes.drop_last()), shapes.last())
    }
}

/// Drawing a list preserves dimensions and well-formedness.
pub proof fn lemma_draw_list_wf(m: CanvasModel, shapes: Seq<Shape>)
    requires
        m.wf(),
    ensures
        draw_list(m, shapes).wf(),
        draw_list(m, shapes).width == m.width,
        draw_list(m, shapes).height == m.height,
        draw_list(m, shapes).depth == m.depth,
    decreases shapes.len(),
{
    if shapes.len() > 0 {
        lemma_draw_list_wf(m, shapes.drop_last());
        lemma_draw_shape_wf(draw_list(m, shapes.drop_last()), shapes.last());
    }
}

/// Associativity of rendering: drawing the prefix `[0, k)` and then the
/// suffix `[k, n)` sequentially onto one canvas is the same as drawing
/// the whole list directly. This is the invariant that makes prefix
/// caching correct.
pub proof fn lemma_draw_list_associative(m: CanvasModel, s: Seq<Shape>, k: int)
    requires
        0 <= k <= s.len(),
    ensures
        draw_list(m, s) == draw_list(draw_list(m, s.take(k)), s.skip(k)),
    decreases s.len() - k,
{
    if k == s.len() {
        assert(s.take(k) =~= s);
        assert(s.skip(k) =~= Seq::<Shape>::empty());
    } else {
        let sdl = s.drop_last();
        lemma_draw_list_associative(m, sdl, k);
        assert(sdl.take(k) =~= s.take(k));
        assert(s.skip(k).drop_last() =~= sdl.skip(k));
        assert(s.skip(k).len() == s.len() - k >= 1);
        assert(s.skip(k).last() == s.last());
    }
}

/// How a mutated list may relate to the list it came from: unchanged
/// when empty, else exactly one shape replaced by a mutation of itself.
pub open spec fn list_mutated_from(post: Seq<Shape>, pre: Seq<Shape>) -> bool {
    &&& post.len() == pre.len()
    &&& {
        ||| post == pre
        ||| exists|i: int|
            0 <= i < pre.len() && shape_mutated_from(#[trigger] post[i], pre[i]) && (forall|j: int|
                0 <= j < pre.len() && j != i ==> post[j] == pre[j])
    }
}

/// The concatenated canonical tags of a sequence of shapes.
pub open spec fn list_tags(s: Seq<Shape>) -> Seq<char>
    decreases s.len(),
{
    if s.len() == 0 {
        Seq::empty()
    } else {
        list_tags(s.drop_last()) + shape_tag_spec(s.last())
    }
}

/// The concatenated vector markup of a sequence of shapes.
pub open spec fn list_svgs(s: Seq<Shape>, width: int, height: int) -> Seq<char>
    decreases s.len(),
{
    if s.len() == 0 {
        Seq::empty()
    } else {
        list_svgs(s.drop_last(), width, height) + shape_svg_spec(s.last(), width, height)
    }
}

/// The full markup document of a list: the svg element around the
/// concatenated shapes.
pub open spec fn spec_list_svg(s: Seq<Shape>, width: int, height: int) -> Seq<char> {
    "<"@ + "svg xmlns='http://www.w3.org/2000/svg' style='background-color: #000;' "@
        + " width='"@ + spec_dec(width) + "' height='"@ + spec_dec(height) + "' >"@ + list_svgs(
        s,
        width,
        height,
    ) + "</svg>"@
}

#[derive(Clone, Debug)]
pub struct ShapeList {
    pub shapes: Vec<Shape>,
}

impl View for ShapeList {
    type V = Seq<Shape>;

    open spec fn view(&self) -> Seq<Shape> {
        self.shapes@
    }
}

impl ShapeList {
    /// Abbreviation for the sequence's well-formedness.
    pub open spec fn wf(self) -> bool {
        list_wf(self@)
    }

    /// The empty genome: a valid state that renders to a blank canvas.
    pub fn new() -> (sl: ShapeList)
        ensures
            sl@ == Seq::<Shape>::empty(),
            sl.wf(),
    {
        ShapeList { shapes: Vec::new() }
    }

    /// Number of shapes in the list.
    pub fn len(&self) -> (n: usize)
        ensures
            n == self@.len(),
    {
        self.shapes.len()
    }

    /// The prefix of length `i` as an independent copy.
    pub fn slice(&self, i: usize) -> (sl: ShapeList)
        requires
            i <= self@.len(),
        ensures
            sl@ == self@.take(i as int),
    {
        let mut v: Vec<Shape> = Vec::new();
        let mut j: usize = 0;
        while j < i
            invariant
                j <= i <= self@.len(),
                self@.len() == self.shapes@.len(),
                v@ =~= self@.take(j as int),
            decreases i - j,
        {
            v.push(self.shapes[j]);
            j = j + 1;
        }
        let sl = ShapeList { shapes: v };
        assert(sl@ =~= self@.take(i as int));
        sl
    }

    /// An independent copy of the whole list.
    pub fn clone_list(&self) -> (sl: ShapeList)
        ensures
            sl@ == self@,
    {
        let n = self.shapes.len();
        let sl = self.slice(n);
        assert(self@.take(n as int) =~= self@);
        sl
    }

    /// Appends one freshly randomized shape.
    pub fn add_random(&mut self)
        requires
            old(self).wf(),
        ensures
            final(self).wf(),
            final(self)@.len() == old(self)@.len() + 1,
            final(self)@.drop_last() == old(self)@,
            shape_wf(final(self)@.last()),
    {
        let s = Shape::random();
        self.shapes.push(s);
        assert(self@.drop_last() =~= old(self)@);
    }

    /// If more than one shape is present, removes one chosen uniformly
    /// at random by index.
    pub fn remove_shape(&mut self)
        requires
            old(self).wf(),
        ensures
            final(self).wf(),
            old(self)@.len() > 1 ==> final(self)@.len() == old(self)@.len() - 1 && (exists|i: int|
                0 <= i < old(self)@.len() && final(self)@ == old(self)@.remove(i)),
            old(self)@.len() <= 1 ==> final(self)@ == old(self)@,
    {
        if self.shapes.len() > 1 {
            let i = rand_below(self.shapes.len());
            self.shapes.remove(i);
            assert(self@ == old(self)@.remove(i as int));
        }
    }

    /// Occasionally exchanges two distinct random indices, reordering
    /// paint order; visible output may change, since compositing is
    /// order-dependent.
    pub fn swap(&mut self)
        requires
            old(self).wf(),
        ensures
            final(self).wf(),
            final(self)@.len() == old(self)@.len(),
            final(self)@ == old(self)@ || exists|i: int, j: int|
                0 <= i < old(self)@.len() && 0 <= j < old(self)@.len() && final(self)@ == old(
                    self,
                )@.update(i, old(self)@[j]).update(j, old(self)@[i]),
    {
        if self.shapes.len() > 2 {
            let i = rand_below(self.shapes.len());
            let j = rand_below(self.shapes.len());
            if i != j {
                let a = self.shapes[i];
                let b = self.shapes[j];
                self.shapes.set(i, b);
                self.shapes.set(j, a);
                assert(self@ == old(self)@.update(i as int, old(self)@[j as int]).update(
                    j as int,
                    old(self)@[i as int],
                ));
            }
        }
    }

    /// Mutates one shape: most of the time the last one, which keeps
    /// longer cached prefixes valid, and sometimes a uniformly chosen
    /// one anywhere in the list. The split is a tunable policy
    /// constant, not an invariant.
    pub fn mutate(&mut self)
        requires
            old(self).wf(),
        ensures
            final(self).wf(),
            list_mutated_from(final(self)@, old(self)@),
    {
        let k = rand_below(100);
        if k <= 90 {
            let l = self.shapes.len();
            if l > 0 {
                let mut s = self.shapes[l - 1];
                s.mutate();
                self.shapes.set(l - 1, s);
                assert(shape_mutated_from(self@[l - 1], old(self)@[l - 1]));
            }
        } else {
            match choose_index(&self.shapes) {
                Some(i) => {
                    let mut s = self.shapes[i];
                    s.mutate();
                    self.shapes.set(i, s);
                    assert(shape_mutated_from(self@[i as int], old(self)@[i as int]));
                },
                None => {},
            }
        }
    }

    /// Draws every shape in order onto the given canvas without wiping
    /// it first; the caller controls whether the canvas starts blank.
    pub fn draw_onto(&self, canv: &mut Canvas)
        requires
            self.wf(),
            old(canv).wf(),
        ensures
            final(canv).wf(),
            final(canv)@ == draw_list(old(canv)@, self@),
    {
        let ghost m0 = canv@;
        let n = self.shapes.len();
        let mut i: usize = 0;
        while i < n
            invariant
                canv.wf(),
                self.wf(),
                i <= n,
                n == self@.len(),
                canv@ == draw_list(m0, self@.take(i as int)),
            decreases n - i,
        {
            proof {
                assert(self@.take(i + 1).drop_last() =~= self@.take(i as int));
                assert(self@.take(i + 1).last() == self@[i as int]);
            }
            self.shapes[i].draw_onto(canv);
            i = i + 1;
        }
        assert(self@.take(n as int) =~= self@);
    }

    /// Draws exactly the shape at index `i`; the index must be valid.
    pub fn draw_item_onto(&self, i: usize, canv: &mut Canvas)
        requires
            self.wf(),
            i < self@.len(),
            old(canv).wf(),
        ensures
            final(canv).wf(),
            final(canv)@ == draw_shape(old(canv)@, self@[i as int]),
    {
        self.shapes[i].draw_onto(canv);
    }

    /// Exact structural equality of two lists.
    pub fn eq_list(&self, other: &ShapeList) -> (r: bool)
        ensures
            r == (self@ == other@),
    {
        if self.shapes.len() != other.shapes.len() {
            assert(self@ != other@);
            return false;
        }
        let n = self.shapes.len();
        let mut i: usize = 0;
        while i < n
            invariant
                i <= n,
                n == self@.len(),
                n == other@.len(),
                forall|j: int| 0 <= j < i ==> self@[j] == other@[j],
            decreases n - i,
        {
            if self.shapes[i] != other.shapes[i] {
                return false;
            }
            i = i + 1;
        }
        assert(self@ =~= other@);
        true
    }

    /// The concatenation of each shape's canonical fixed-precision tag.
    pub fn to_string(&self) -> (out: String)
        requires
            self.wf(),
        ensures
            out@ == list_tags(self@),
    {
        let mut out = String::new();
        let n = self.shapes.len();
        let mut i: usize = 0;
        while i < n
            invariant
                self.wf(),
                i <= n,
                n == self@.len(),
                out@ == list_tags(self@.take(i as int)),
            decreases n - i,
        {
            proof {
                assert(self@.take(i + 1).drop_last() =~= self@.take(i as int));
                assert(self@.take(i + 1).last() == self@[i as int]);
            }
            let tag = self.shapes[i].to_string();
            out.append(tag.as_str());
            i = i + 1;
        }
        assert(self@.take(n as int) =~= self@);
        out
    }

    /// The svg document of the list at the given canvas size.
    pub fn svg(&self, width: usize, height: usize) -> (out: String)
        requires
            self.wf(),
            width <= 0x3fff_ffff,
            height <= 0x3fff_ffff,
        ensures
            out@ == spec_list_svg(self@, width as int, height as int),
    {
        proof {
            reveal_strlit("<");
            reveal_strlit("svg xmlns='http://www.w3.org/2000/svg' style='background-color: #000;' ");
            reveal_strlit(" width='");
            reveal_strlit("' height='");
            reveal_strlit("' >");
            reveal_strlit("</svg>");
        }
        let mut contents = String::new();
        let n = self.shapes.len();
        let mut i: usize = 0;
        while i < n
            invariant
                self.wf(),
                i <= n,
                n == self@.len(),
                width <= 0x3fff_ffff,
                height <= 0x3fff_ffff,
                contents@ == list_svgs(self@.take(i as int), width as int, height as int),
            decreases n - i,
        {
            proof {
                assert(self@.take(i + 1).drop_last() =~= self@.take(i as int));
                assert(self@.take(i + 1).last() == self@[i as int]);
            }
            let piece = self.shapes[i].svg(width, height);
            contents.append(piece.as_str());
            i = i + 1;
        }
        assert(self@.take(n as int) =~= self@);
        let mut out = String::from_str("<");
        out.append("svg xmlns='http://www.w3.org/2000/svg' style='background-color: #000;' ");
        out.append(" width='");
        let w = u32_dec(width as u32);
        out.append(w.as_str());
        out.append("' height='");
        let h = u32_dec(height as u32);
        out.append(h.as_str());
        out.append("' >");
        out.append(contents.as_str());
        out.append("</svg>");
        assert(out@ =~= spec_list_svg(self@, width as int, height as int));
        out
    }
}

} // verus!
