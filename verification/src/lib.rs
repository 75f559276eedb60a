//! Procedural raster-image generation: colored, shaped, noise-perturbed
//! layers composited onto a persistent canvas.
//!
//! This crate holds the verified core: the 8-bit color algebra with
//! overflow-safe fixed-point alpha compositing, and the pixel-buffer
//! pipeline (scratch layers, clipping, pixel swapping, layer compositing).
//! Continuous geometry (points, shapes, transforms), gradient sampling and
//! random point generation work on `f64` values and live with the callers,
//! which reduce them to the plain per-pixel decisions this crate consumes:
//! a sampled color per pixel, a membership bit per pixel, and a list of
//! pixel swaps per noise pass.

pub mod coloring;

use crate::coloring::{spec_draw_on_solid, SolidColor, TransparentColor};
use vstd::arithmetic::div_mod::{
    lemma_div_by_multiple, lemma_fundamental_div_mod, lemma_mod_multiples_basic,
};
use vstd::arithmetic::mul::{lemma_mul_inequality, lemma_mul_is_commutative, lemma_mul_nonnegative};
use vstd::prelude::*;

verus! {

/// One pixel-swap operation: exchange the colors at `(x1, y1)` and
/// `(x2, y2)` of a row-major buffer.
#[derive(Copy, Clone, Debug, PartialEq, Eq, Structural)]
pub struct PixelSwap {
    pub x1: usize,
    pub y1: usize,
    pub x2: usize,
    pub y2: usize,
}

/// Whether a swap touches only cells of a row-major buffer of the given
/// width and length.
pub open spec fn swap_in_bounds(s: PixelSwap, width: int, len: int) -> bool {
    &&& s.x1 < width
    &&& s.x2 < width
    &&& s.x1 + s.y1 * width < len
    &&& s.x2 + s.y2 * width < len
}

/// The buffer after one swap; a swap that reaches outside the buffer is
/// a no-op (the renderer never issues one).
pub open spec fn spec_swap_applied<T>(buf: Seq<T>, width: int, s: PixelSwap) -> Seq<T> {
    let i = s.x1 + s.y1 * width;
    let j = s.x2 + s.y2 * width;
    if 0 <= i < buf.len() && 0 <= j < buf.len() {
        buf.update(i, buf[j]).update(j, buf[i])
    } else {
        buf
    }
}

/// The buffer after a sequence of swaps, applied first to last.
pub open spec fn spec_swaps_applied<T>(buf: Seq<T>, width: int, swaps: Seq<PixelSwap>) -> Seq<T>
    decreases swaps.len(),
{
    if swaps.len() == 0 {
        buf
    } else {
        spec_swaps_applied(spec_swap_applied(buf, width, swaps[0]), width, swaps.drop_first())
    }
}

/// A clipped scratch layer: cells kept by the mask are unchanged, all
/// others are reset to fully transparent.
pub open spec fn spec_clipped(layer: Seq<TransparentColor>, keep: Seq<bool>) -> Seq<
    TransparentColor,
> {
    Seq::new(layer.len(), |i: int| if keep[i] {
        layer[i]
    } else {
        TransparentColor::spec_transparent()
    })
}

/// A canvas after compositing a scratch layer over it, cell by cell.
pub open spec fn spec_composited(layer: Seq<TransparentColor>, canvas: Seq<SolidColor>) -> Seq<
    SolidColor,
> {
    Seq::new(canvas.len(), |i: int| spec_draw_on_solid(layer[i], canvas[i]))
}

/// A buffer after an optional noise pass.
pub open spec fn spec_opt_swaps<T>(buf: Seq<T>, width: int, swaps: Option<Seq<PixelSwap>>) -> Seq<
    T,
> {
    match swaps {
        None => buf,
        Some(s) => spec_swaps_applied(buf, width, s),
    }
}

/// The sequence of swaps an optional noise pass performs.
pub open spec fn spec_opt_view(swaps: Option<&Vec<PixelSwap>>) -> Option<Seq<PixelSwap>> {
    match swaps {
        None => None,
        Some(v) => Some(v@),
    }
}

/// Whether every swap of an optional noise pass stays inside a buffer of
/// the given width and length.
pub open spec fn opt_swaps_in_bounds(
    swaps: Option<&Vec<PixelSwap>>,
    width: int,
    len: int,
) -> bool {
    match swaps {
        None => true,
        Some(v) => forall|k: int|
            0 <= k < v@.len() ==> swap_in_bounds(#[trigger] v@[k], width, len),
    }
}

/// Swaps preserve the length of the buffer they act on.
pub proof fn lemma_swaps_applied_len<T>(buf: Seq<T>, width: int, swaps: Seq<PixelSwap>)
    ensures
        spec_swaps_applied(buf, width, swaps).len() == buf.len(),
    decreases swaps.len(),
{
    if swaps.len() > 0 {
        let stepped = spec_swap_applied(buf, width, swaps[0]);
        lemma_swaps_applied_len(stepped, width, swaps.drop_first());
        assert(spec_swaps_applied(buf, width, swaps) == spec_swaps_applied(
            stepped,
            width,
            swaps.drop_first(),
        ));
        assert(stepped.len() == buf.len());
    }
}

/// Peeling the last swap off a prefix: the first `k + 1` swaps are the
/// first `k` followed by one application of swap `k`.
proof fn lemma_swaps_applied_snoc<T>(buf: Seq<T>, width: int, swaps: Seq<PixelSwap>, k: int)
    requires
        0 <= k < swaps.len(),
    ensures
        spec_swaps_applied(buf, width, swaps.take(k + 1)) == spec_swap_applied(
            spec_swaps_applied(buf, width, swaps.take(k)),
            width,
            swaps[k],
        ),
    decreases k,
{
    let stepped = spec_swap_applied(buf, width, swaps[0]);
    if k == 0 {
        assert(swaps.take(0) =~= Seq::<PixelSwap>::empty());
        assert(swaps.take(1)[0] == swaps[0]);
        assert(swaps.take(1).drop_first() =~= Seq::<PixelSwap>::empty());
        assert(spec_swaps_applied(buf, width, swaps.take(0)) == buf);
        assert(spec_swaps_applied(stepped, width, Seq::<PixelSwap>::empty()) == stepped);
        assert(spec_swaps_applied(buf, width, swaps.take(1)) == spec_swaps_applied(
            spec_swap_applied(buf, width, swaps.take(1)[0]),
            width,
            swaps.take(1).drop_first(),
        ));
    } else {
        lemma_swaps_applied_snoc(stepped, width, swaps.drop_first(), k - 1);
        assert(swaps.take(k + 1)[0] == swaps[0]);
        assert(swaps.take(k)[0] == swaps[0]);
        assert(swaps.take(k + 1).drop_first() =~= swaps.drop_first().take(k));
        assert(swaps.take(k).drop_first() =~= swaps.drop_first().take(k - 1));
        assert(swaps.drop_first()[k - 1] == swaps[k]);
        assert(spec_swaps_applied(buf, width, swaps.take(k + 1)) == spec_swaps_applied(
            spec_swap_applied(buf, width, swaps.take(k + 1)[0]),
            width,
            swaps.take(k + 1).drop_first(),
        ));
        assert(spec_swaps_applied(buf, width, swaps.take(k)) == spec_swaps_applied(
            spec_swap_applied(buf, width, swaps.take(k)[0]),
            width,
            swaps.take(k).drop_first(),
        ));
    }
}

/// Applies a list of swaps, in order, to a row-major buffer. Exactly one
/// exchange happens per listed swap, including self-swaps, which leave the
/// buffer unchanged but still count as an operation.
pub fn apply_swaps_buffer<T: Copy>(buffer: &mut Vec<T>, width: usize, swaps: &Vec<PixelSwap>)
    requires
        width >= 1,
        forall|k: int|
            0 <= k < swaps@.len() ==> swap_in_bounds(
                #[trigger] swaps@[k],
                width as int,
                old(buffer)@.len() as int,
            ),
    ensures
        final(buffer)@ == spec_swaps_applied(old(buffer)@, width as int, swaps@),
{
    let swap_count = swaps.len();
    let buffer_len = buffer.len();
    let ghost orig = buffer@;
    for k in 0..swap_count
        invariant
            swap_count == swaps@.len(),
            buffer_len == orig.len(),
            buffer@ == spec_swaps_applied(orig, width as int, swaps@.take(k as int)),
            buffer@.len() == orig.len(),
            width >= 1,
            forall|m: int|
                0 <= m < swaps@.len() ==> swap_in_bounds(
                    #[trigger] swaps@[m],
                    width as int,
                    orig.len() as int,
                ),
    {
        let s = swaps[k];
        assert(swap_in_bounds(s, width as int, orig.len() as int));
        proof {
            lemma_mul_nonnegative(s.y1 as int, width as int);
            lemma_mul_nonnegative(s.y2 as int, width as int);
            lemma_mul_is_commutative(s.y1 as int, width as int);
            lemma_mul_is_commutative(s.y2 as int, width as int);
        }
        let i = s.x1 + s.y1 * width;
        let j = s.x2 + s.y2 * width;
        let tmp_i = buffer[i];
        let tmp_j = buffer[j];
        buffer[i] = tmp_j;
        buffer[j] = tmp_i;
        proof {
            lemma_swaps_applied_snoc(orig, width as int, swaps@, k as int);
            assert(swaps@.take(k as int + 1) =~= swaps@.take(k as int).push(swaps@[k as int]));
            assert(buffer@ =~= spec_swaps_applied(orig, width as int, swaps@.take(k as int + 1)));
        }
    }
    proof {
        assert(swaps@.take(swap_count as int) =~= swaps@);
    }
}

/// A fresh scratch layer: `len` cells, all fully transparent.
pub fn blank_layer(len: usize) -> (layer: Vec<TransparentColor>)
    ensures
        layer@.len() == len,
        forall|i: int| 0 <= i < len ==> layer@[i] == TransparentColor::spec_transparent(),
{
    let mut layer: Vec<TransparentColor> = Vec::new();
    let mut i: usize = 0;
    while i < len
        invariant
            i <= len,
            layer@.len() == i,
            forall|j: int| 0 <= j < i ==> layer@[j] == TransparentColor::spec_transparent(),
        decreases len - i,
    {
        layer.push(TransparentColor::transparent());
        i = i + 1;
    }
    layer
}

/// Clips a scratch layer to a membership mask: cells whose mask bit is
/// false are reset to fully transparent, the rest keep their color.
pub fn clip_layer(layer: &mut Vec<TransparentColor>, keep: &Vec<bool>)
    requires
        old(layer)@.len() == keep@.len(),
    ensures
        final(layer)@ == spec_clipped(old(layer)@, keep@),
{
    let len = layer.len();
    let ghost orig = layer@;
    let mut i: usize = 0;
    while i < len
        invariant
            i <= len,
            len == orig.len(),
            len == keep@.len(),
            layer@.len() == len,
            forall|j: int| 0 <= j < i ==> layer@[j] == spec_clipped(orig, keep@)[j],
            forall|j: int| i <= j < len ==> layer@[j] == orig[j],
        decreases len - i,
    {
        if !keep[i] {
            layer[i] = TransparentColor::transparent();
        }
        i = i + 1;
    }
    proof {
        assert(layer@ =~= spec_clipped(orig, keep@));
    }
}

/// A fully transparent layer composites to the unchanged canvas. In
/// particular, a clip mask that keeps no pixel makes the whole layer
/// operation a no-op on the canvas.
pub proof fn lemma_transparent_layer_noop(layer: Seq<TransparentColor>, canvas: Seq<SolidColor>)
    requires
        layer.len() == canvas.len(),
        forall|i: int| 0 <= i < layer.len() ==> layer[i] == TransparentColor::spec_transparent(),
    ensures
        spec_composited(layer, canvas) == canvas,
{
    assert forall|i: int| 0 <= i < canvas.len() implies spec_composited(layer, canvas)[i]
        == canvas[i] by {
        crate::coloring::lemma_zero_alpha_noop(canvas[i]);
    }
    assert(spec_composited(layer, canvas) =~= canvas);
}

/// The persistent canvas: a flat row-major buffer of opaque pixels and its
/// width. The height is derived as `len / width`.
pub struct Image {
    canvas_width: usize,
    canvas: Vec<SolidColor>,
}

impl Image {
    /// The canvas width in pixels.
    pub closed spec fn spec_width(&self) -> int {
        self.canvas_width as int
    }

    /// The pixel buffer in row-major order.
    pub closed spec fn pixels(&self) -> Seq<SolidColor> {
        self.canvas@
    }

    /// A usable image: a positive width that evenly divides the buffer.
    pub open spec fn wf(&self) -> bool {
        self.spec_width() >= 1 && self.pixels().len() as int % self.spec_width() == 0
    }

    /// The canvas height in pixels.
    pub open spec fn spec_height(&self) -> int
        recommends
            self.wf(),
    {
        self.pixels().len() as int / self.spec_width()
    }

    /// The row-major buffer index of pixel `(x, y)`.
    pub open spec fn spec_index_of(&self, x: int, y: int) -> int {
        x + y * self.spec_width()
    }

    /// Whether `(x, y)` names a pixel of this image.
    pub open spec fn valid_pixel(&self, x: int, y: int) -> bool {
        0 <= x < self.spec_width() && 0 <= y < self.spec_height()
    }

    /// A valid coordinate's buffer index lies inside the buffer.
    pub proof fn lemma_index_in_bounds(&self, x: int, y: int)
        requires
            self.wf(),
            self.valid_pixel(x, y),
        ensures
            0 <= self.spec_index_of(x, y) < self.pixels().len(),
    {
        let w = self.spec_width();
        let h = self.spec_height();
        let len = self.pixels().len() as int;
        lemma_fundamental_div_mod(len, w);
        lemma_mul_nonnegative(y, w);
        lemma_mul_inequality(y, h - 1, w);
        assert((h - 1) * w == h * w - w) by (nonlinear_arith);
        assert(w * h == h * w) by (nonlinear_arith);
    }

    /// A new image of the given size with every pixel set to the
    /// background color.
    pub fn with_size(width: usize, height: usize, background_color: SolidColor) -> (r: Image)
        requires
            width * height <= usize::MAX,
        ensures
            r.spec_width() == width,
            r.pixels().len() == width * height,
            forall|i: int| 0 <= i < width * height ==> r.pixels()[i] == background_color,
            width >= 1 ==> r.wf() && r.spec_height() == height,
    {
        let total = width * height;
        let mut canvas: Vec<SolidColor> = Vec::new();
        let mut i: usize = 0;
        while i < total
            invariant
                i <= total,
                canvas@.len() == i,
                forall|j: int| 0 <= j < i ==> canvas@[j] == background_color,
            decreases total - i,
        {
            canvas.push(background_color);
            i = i + 1;
        }
        proof {
            if width >= 1 {
                lemma_mul_is_commutative(width as int, height as int);
                lemma_mod_multiples_basic(height as int, width as int);
                lemma_div_by_multiple(height as int, width as int);
            }
        }
        Image { canvas_width: width, canvas }
    }

    /// The canvas width in pixels.
    pub fn canvas_width(&self) -> (r: usize)
        ensures
            r as int == self.spec_width(),
    {
        self.canvas_width
    }

    /// The canvas height in pixels, derived from the buffer length.
    pub fn canvas_height(&self) -> (r: usize)
        requires
            self.wf(),
        ensures
            r as int == self.spec_height(),
    {
        self.canvas.len() / self.canvas_width
    }

    /// The buffer index of pixel `(x, y)`.
    fn get_index(&self, x: usize, y: usize) -> (r: usize)
        requires
            self.wf(),
            self.valid_pixel(x as int, y as int),
        ensures
            r as int == self.spec_index_of(x as int, y as int),
            r < self.pixels().len(),
    {
        proof {
            self.lemma_index_in_bounds(x as int, y as int);
        }
        let len = self.canvas.len();
        assert(self.spec_index_of(x as int, y as int) < len);
        x + y * self.canvas_width
    }

    /// The pixel at `(x, y)`.
    pub fn get_pixel(&self, x: usize, y: usize) -> (r: &SolidColor)
        requires
            self.wf(),
            self.valid_pixel(x as int, y as int),
        ensures
            *r == self.pixels()[self.spec_index_of(x as int, y as int)],
    {
        let index = self.get_index(x, y);
        &self.canvas[index]
    }

    /// A mutable reference to the pixel at `(x, y)`.
    pub fn get_pixel_mut(&mut self, x: usize, y: usize) -> (r: &mut SolidColor)
        requires
            old(self).wf(),
            old(self).valid_pixel(x as int, y as int),
        ensures
            *r == old(self).pixels()[old(self).spec_index_of(x as int, y as int)],
            final(self).pixels() == old(self).pixels().update(
                old(self).spec_index_of(x as int, y as int),
                *final(r),
            ),
            final(self).spec_width() == old(self).spec_width(),
    {
        let index = self.get_index(x, y);
        &mut self.canvas[index]
    }

    /// Exchanges the pixels at `(x1, y1)` and `(x2, y2)`; exchanging a
    /// pixel with itself leaves the canvas unchanged.
    pub fn swap_pixels(&mut self, x1: usize, y1: usize, x2: usize, y2: usize)
        requires
            old(self).wf(),
            old(self).valid_pixel(x1 as int, y1 as int),
            old(self).valid_pixel(x2 as int, y2 as int),
        ensures
            final(self).spec_width() == old(self).spec_width(),
            final(self).pixels() == old(self).pixels().update(
                old(self).spec_index_of(x1 as int, y1 as int),
                old(self).pixels()[old(self).spec_index_of(x2 as int, y2 as int)],
            ).update(
                old(self).spec_index_of(x2 as int, y2 as int),
                old(self).pixels()[old(self).spec_index_of(x1 as int, y1 as int)],
            ),
    {
        let i1 = self.get_index(x1, y1);
        let i2 = self.get_index(x2, y2);
        let tmp1 = self.canvas[i1];
        let tmp2 = self.canvas[i2];
        self.canvas[i1] = tmp2;
        self.canvas[i2] = tmp1;
    }

    /// Applies a noise pass to the canvas: the listed swaps, in order.
    pub fn apply_swaps(&mut self, swaps: &Vec<PixelSwap>)
        requires
            old(self).wf(),
            forall|k: int|
                0 <= k < swaps@.len() ==> swap_in_bounds(
                    #[trigger] swaps@[k],
                    old(self).spec_width(),
                    old(self).pixels().len() as int,
                ),
        ensures
            final(self).spec_width() == old(self).spec_width(),
            final(self).pixels() == spec_swaps_applied(
                old(self).pixels(),
                old(self).spec_width(),
                swaps@,
            ),
    {
        apply_swaps_buffer(&mut self.canvas, self.canvas_width, swaps);
    }

    /// Composites a scratch layer over the canvas: every pixel becomes the
    /// layer's cell drawn over the old pixel by the "over opaque" rule.
    pub fn composite_layer(&mut self, layer: &Vec<TransparentColor>)
        requires
            old(self).wf(),
            layer@.len() == old(self).pixels().len(),
        ensures
            final(self).spec_width() == old(self).spec_width(),
            final(self).pixels() == spec_composited(layer@, old(self).pixels()),
    {
        let len = self.canvas.len();
        let ghost orig = self.canvas@;
        let mut i: usize = 0;
        while i < len
            invariant
                i <= len,
                len == orig.len(),
                len == layer@.len(),
                self.canvas@.len() == len,
                self.canvas_width == old(self).canvas_width,
                forall|j: int| 0 <= j < i ==> self.canvas@[j] == spec_composited(layer@, orig)[j],
                forall|j: int| i <= j < len ==> self.canvas@[j] == orig[j],
            decreases len - i,
        {
            let over = layer[i];
            let under = self.canvas[i];
            self.canvas[i] = over.draw_on_solid(&under);
            i = i + 1;
        }
        proof {
            assert(self.canvas@ =~= spec_composited(layer@, orig));
        }
    }

    /// One complete layer operation, in the pipeline's fixed order: an
    /// optional pre-clip noise pass on the scratch layer, the clip to the
    /// membership mask, an optional post-clip noise pass on the layer,
    /// the composite onto the canvas, and an optional post-draw noise pass
    /// on the canvas. The caller supplies the per-pixel decisions: the
    /// sampled layer, the mask, and the swap lists in pipeline order.
    pub fn draw_layer(
        &mut self,
        layer: Vec<TransparentColor>,
        keep: &Vec<bool>,
        pre_clip_swaps: Option<&Vec<PixelSwap>>,
        post_clip_swaps: Option<&Vec<PixelSwap>>,
        post_draw_swaps: Option<&Vec<PixelSwap>>,
    )
        requires
            old(self).wf(),
            layer@.len() == old(self).pixels().len(),
            keep@.len() == old(self).pixels().len(),
            opt_swaps_in_bounds(
                pre_clip_swaps,
                old(self).spec_width(),
                old(self).pixels().len() as int,
            ),
            opt_swaps_in_bounds(
                post_clip_swaps,
                old(self).spec_width(),
                old(self).pixels().len() as int,
            ),
            opt_swaps_in_bounds(
                post_draw_swaps,
                old(self).spec_width(),
                old(self).pixels().len() as int,
            ),
        ensures
            final(self).spec_width() == old(self).spec_width(),
            final(self).pixels() == ({
                let w = old(self).spec_width();
                let noised = spec_opt_swaps(layer@, w, spec_opt_view(pre_clip_swaps));
                let clipped = spec_clipped(noised, keep@);
                let reclipped = spec_opt_swaps(clipped, w, spec_opt_view(post_clip_swaps));
                let drawn = spec_composited(reclipped, old(self).pixels());
                spec_opt_swaps(drawn, w, spec_opt_view(post_draw_swaps))
            }),
    {
        let ghost w = self.spec_width();
        let ghost stage0 = layer@;
        let mut layer = layer;
        match pre_clip_swaps {
            Some(swaps) => {
                apply_swaps_buffer(&mut layer, self.canvas_width, swaps);
                proof {
                    lemma_swaps_applied_len(stage0, w, swaps@);
                }
            },
            None => {},
        }
        clip_layer(&mut layer, keep);
        let ghost stage2 = layer@;
        match post_clip_swaps {
            Some(swaps) => {
                apply_swaps_buffer(&mut layer, self.canvas_width, swaps);
                proof {
                    lemma_swaps_applied_len(stage2, w, swaps@);
                }
            },
            None => {},
        }
        self.composite_layer(&layer);
        match post_draw_swaps {
            Some(swaps) => {
                self.apply_swaps(swaps);
            },
            None => {},
        }
    }
}

} // verus!
