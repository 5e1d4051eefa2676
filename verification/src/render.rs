//! The compositing engine: the renderer, its pixel-blending operations and
//! the rasterize-and-composite pipeline.

pub mod cache;
pub mod raster;
pub mod svg;

use vstd::prelude::*;

use vstd::arithmetic::div_mod::lemma_multiply_divide_lt;
use vstd::arithmetic::mul::lemma_mul_upper_bound;

use crate::placeholders::{PlaceholderValueMap, PlaceholderValues, UsedPlaceholders};
use crate::schema::Schema;
use raster::{px_eq, Raster};

verus! {

/// Rendering errors.
#[derive(Debug, Clone, Copy, PartialEq, Eq, Structural)]
pub enum RenderingError {
    FileSystemError,
    UTF8EncodingError,
    SVGParseError,
    PixmapAllocationError,
    ReadStaticPNGError,
    PngEncodeError,
    PngDecodeError,
    ImageError,
}

/// A non-fatal diagnostic gathered while substituting placeholders.
#[derive(Debug, Clone)]
pub enum PlaceholderWarning {
    /// A placeholder was substituted but is not declared by the fragment.
    Undeclared(String),
    /// The fragment declares these placeholders, but no value was
    /// substituted for them.
    Unused(Vec<String>),
}

/// The denominator of the "straight alpha over" blend, scaled by 255²:
/// `out_alpha = src_a + dst_a * (1 - src_a)` over unit alphas becomes
/// `blend_n = 255*sa + da*(255 - sa)` over byte alphas.
pub open spec fn blend_n(sa: int, da: int) -> int {
    255 * sa + da * (255 - sa)
}

/// One blended color channel, rounded to nearest: the exact integer form of
/// `(s*src_a + d*dst_a*(1 - src_a)) / out_alpha` over byte channels, or 0
/// when the blend is fully transparent.
pub open spec fn spec_blend_channel(s: int, d: int, sa: int, da: int) -> int {
    if blend_n(sa, da) == 0 {
        0
    } else {
        (2 * (255 * s * sa + d * da * (255 - sa)) + blend_n(sa, da)) / (2 * blend_n(sa, da))
    }
}

/// The blended alpha byte, rounded to nearest: the exact integer form of
/// `(src_a + dst_a * (1 - src_a)) * 255`.
pub open spec fn spec_blend_alpha(sa: int, da: int) -> int {
    (2 * blend_n(sa, da) + 255) / 510
}

/// `out` is the "straight alpha over" blend of `src` over `dst`.
pub open spec fn spec_blend(src: [u8; 4], dst: [u8; 4], out: [u8; 4]) -> bool {
    &&& out[0] == spec_blend_channel(src[0] as int, dst[0] as int, src[3] as int, dst[3] as int)
    &&& out[1] == spec_blend_channel(src[1] as int, dst[1] as int, src[3] as int, dst[3] as int)
    &&& out[2] == spec_blend_channel(src[2] as int, dst[2] as int, src[3] as int, dst[3] as int)
    &&& out[3] == spec_blend_alpha(src[3] as int, dst[3] as int)
}

/// How one output pixel of the mask-guided base construction relates to the
/// background pixel `bg`, the translucent-base pixel `top` and the mask
/// pixel `mask` at the same position:
/// - a mask pixel whose first channel is not pure white replaces the
///   background by the top pixel outright;
/// - under a pure-white mask, an opaque top pixel replaces the background, a
///   fully transparent one leaves it unchanged, and anything in between is
///   blended over it.
pub open spec fn spec_mask_blend(bg: [u8; 4], top: [u8; 4], mask: [u8; 4], out: [u8; 4]) -> bool {
    if mask[0] != 255 {
        px_eq(out, top)
    } else if top[3] == 255 {
        px_eq(out, top)
    } else if top[3] != 0 {
        spec_blend(top, bg, out)
    } else {
        px_eq(out, bg)
    }
}

fn blend_channel(s: u8, d: u8, sa: u8, da: u8) -> (r: u8)
    requires
        blend_n(sa as int, da as int) > 0,
    ensures
        r as int == spec_blend_channel(s as int, d as int, sa as int, da as int),
{
    let s64 = s as u64;
    let d64 = d as u64;
    let sa64 = sa as u64;
    let da64 = da as u64;
    proof {
        lemma_mul_upper_bound(255 * (s64 as int), 65025, sa64 as int, 255);
        lemma_mul_upper_bound(d64 as int, 255, da64 as int, 255);
        lemma_mul_upper_bound((d64 * da64) as int, 65025, 255 - (sa64 as int), 255);
        lemma_mul_upper_bound(da64 as int, 255, 255 - (sa64 as int), 255);
    }
    let t1: u64 = 255 * s64 * sa64;
    let t2: u64 = d64 * da64 * (255 - sa64);
    let n: u64 = 255 * sa64 + da64 * (255 - sa64);
    let num: u64 = t1 + t2;
    proof {
        assert(num <= 255 * n) by (nonlinear_arith)
            requires
                s64 <= 255,
                d64 <= 255,
                sa64 <= 255,
                da64 <= 255,
                num == 255 * s64 * sa64 + d64 * da64 * (255 - sa64),
                n == 255 * sa64 + da64 * (255 - sa64),
        ;
        lemma_multiply_divide_lt((2 * num + n) as int, (2 * n) as int, 256);
    }
    let v: u64 = (2 * num + n) / (2 * n);
    v as u8
}

fn blend_alpha(sa: u8, da: u8) -> (r: u8)
    ensures
        r as int == spec_blend_alpha(sa as int, da as int),
{
    let sa64 = sa as u64;
    let da64 = da as u64;
    proof {
        lemma_mul_upper_bound(da64 as int, 255, 255 - (sa64 as int), 255);
    }
    let n: u64 = 255 * sa64 + da64 * (255 - sa64);
    proof {
        assert(n <= 65025) by (nonlinear_arith)
            requires
                sa64 <= 255,
                da64 <= 255,
                n == 255 * sa64 + da64 * (255 - sa64),
        ;
    }
    let v: u64 = (2 * n + 255) / 510;
    proof {
        lemma_multiply_divide_lt((2 * n + 255) as int, 510, 256);
    }
    v as u8
}

/// The smallest of three lengths.
pub open spec fn spec_min3(a: int, b: int, c: int) -> int {
    if a <= b {
        if a <= c {
            a
        } else {
            c
        }
    } else {
        if b <= c {
            b
        } else {
            c
        }
    }
}

/// The main renderer.
#[derive(Debug)]
pub struct Renderer<'a> {
    /// The schema that determines the layout of the render and all of its
    /// elements.
    pub schema: Schema,
    /// Tracks placeholders that have been used.
    pub used_placeholders: UsedPlaceholders,
    /// The placeholder values to use.
    pub values: PlaceholderValues,
    /// The usvg options to use.
    pub usvg_options: &'a resvg::usvg::Options<'a>,
    /// The non-fatal placeholder diagnostics gathered so far, in the order
    /// they arose.
    pub warnings: Vec<PlaceholderWarning>,
}

impl<'a> Renderer<'a> {
    /// Creates a new renderer.
    ///
    /// # Arguments
    ///
    /// - `schema` - The schema that determines the layout of the render and
    ///   all of its elements.
    /// - `values` - The placeholder values to use.
    /// - `options` - The usvg options to use.
    pub fn build(
        schema: Schema,
        values: PlaceholderValues,
        options: &'a resvg::usvg::Options<'a>,
    ) -> (r: Self)
        ensures
            r.schema == schema,
            r.values == values,
            r.usvg_options == options,
            r.used_placeholders.text@.len() == 0,
            r.used_placeholders.images@.len() == 0,
            r.used_placeholders.shapes@.len() == 0,
            r.warnings@.len() == 0,
    {
        Renderer {
            schema,
            used_placeholders: UsedPlaceholders::new(),
            values,
            usvg_options: options,
            warnings: Vec::new(),
        }
    }

    /// Returns the X position with respect to the content box.
    ///
    /// # Arguments
    ///
    /// - `x` - The X position specified in the schema.
    fn get_x(&self, x: u32) -> (r: i64)
        ensures
            r == self.schema.content_box.raster_x + x,
    {
        (self.schema.content_box.raster_x as i64) + (x as i64)
    }

    /// Returns the Y position with respect to the content box.
    ///
    /// # Arguments
    ///
    /// - `y` - The Y position specified in the schema.
    fn get_y(&self, y: u32) -> (r: i64)
        ensures
            r == self.schema.content_box.raster_y + y,
    {
        (self.schema.content_box.raster_y as i64) + (y as i64)
    }

    /// Utility function for blending two RGBA values with "straight alpha
    /// over" compositing.
    ///
    /// # Arguments
    ///
    /// - `src` - The source RGBA value.
    /// - `dst` - The destination RGBA value.
    pub fn blend_rgba(src: [u8; 4], dst: [u8; 4]) -> (r: [u8; 4])
        ensures
            spec_blend(src, dst, r),
    {
        let sa = src[3];
        let da = dst[3];
        let sa64 = sa as u64;
        let da64 = da as u64;
        proof {
            lemma_mul_upper_bound(da64 as int, 255, 255 - (sa64 as int), 255);
        }
        let n: u64 = 255 * sa64 + da64 * (255 - sa64);
        if n == 0 {
            return [0u8, 0u8, 0u8, 0u8];
        }
        [
            blend_channel(src[0], dst[0], sa, da),
            blend_channel(src[1], dst[1], sa, da),
            blend_channel(src[2], dst[2], sa, da),
            blend_alpha(sa, da),
        ]
    }

    /// Utility function for overlaying two images with a mask, pixel by
    /// pixel over the positions all three buffers share.
    ///
    /// - If the mask pixel is not white, the bottom pixel is replaced with
    ///   the top pixel.
    ///
    /// Otherwise if the mask pixel is white:
    /// - If the top pixel is opaque, the bottom pixel is replaced with the
    ///   top pixel.
    /// - Otherwise if the top pixel is not completely transparent, the
    ///   bottom pixel is blended with the top pixel.
    /// - Otherwise the bottom pixel is left unchanged.
    fn overlay_with_mask(bottom: &mut Raster, top: &Raster, mask: &Raster)
        ensures
            final(bottom).width == old(bottom).width,
            final(bottom).height == old(bottom).height,
            final(bottom).pixels@.len() == old(bottom).pixels@.len(),
            forall|i: int|
                0 <= i < spec_min3(
                    old(bottom).pixels@.len() as int,
                    top.pixels@.len() as int,
                    mask.pixels@.len() as int,
                ) ==> spec_mask_blend(
                    old(bottom).pixels@[i],
                    top.pixels@[i],
                    mask.pixels@[i],
                    final(bottom).pixels@[i],
                ),
            forall|i: int|
                spec_min3(
                    old(bottom).pixels@.len() as int,
                    top.pixels@.len() as int,
                    mask.pixels@.len() as int,
                ) <= i < old(bottom).pixels@.len() ==> final(bottom).pixels@[i] == old(
                    bottom,
                ).pixels@[i],
    {
        let mut m = bottom.pixels.len();
        if top.pixels.len() < m {
            m = top.pixels.len();
        }
        if mask.pixels.len() < m {
            m = mask.pixels.len();
        }
        let mut i: usize = 0;
        while i < m
            invariant
                i <= m,
                m == spec_min3(
                    old(bottom).pixels@.len() as int,
                    top.pixels@.len() as int,
                    mask.pixels@.len() as int,
                ),
                bottom.width == old(bottom).width,
                bottom.height == old(bottom).height,
                bottom.pixels@.len() == old(bottom).pixels@.len(),
                forall|j: int|
                    0 <= j < i ==> spec_mask_blend(
                        old(bottom).pixels@[j],
                        top.pixels@[j],
                        mask.pixels@[j],
                        bottom.pixels@[j],
                    ),
                forall|j: int|
                    i <= j < old(bottom).pixels@.len() ==> bottom.pixels@[j] == old(
                        bottom,
                    ).pixels@[j],
            decreases m - i,
        {
            let bp = bottom.pixels[i];
            let tp = top.pixels[i];
            let mp = mask.pixels[i];
            let out: [u8; 4];
            if mp[0] != 255 {
                out = tp;
            } else {
                let sa = tp[3];
                if sa == 255 {
                    out = tp;
                } else if sa != 0 {
                    out = Renderer::blend_rgba(tp, bp);
                } else {
                    out = bp;
                }
            }
            bottom.pixels.set(i, out);
            i = i + 1;
        }
    }
}

/// How the pixel at flat index `j` of a raster of width `bw` relates to its
/// old value after a layer of width `tw` was merged over the top-left
/// `ow` by `oh` region: inside the region it is the blend of the layer
/// pixel over the old pixel, outside it is unchanged.
pub open spec fn spec_merged_at(
    oldp: Seq<[u8; 4]>,
    newp: Seq<[u8; 4]>,
    topp: Seq<[u8; 4]>,
    bw: int,
    tw: int,
    ow: int,
    oh: int,
    j: int,
) -> bool {
    if bw > 0 && j % bw < ow && j / bw < oh {
        spec_blend(topp[(j / bw) * tw + j % bw], oldp[j], newp[j])
    } else {
        newp[j] == oldp[j]
    }
}

/// Merges `top` onto `base` at the base's origin with "straight alpha over"
/// compositing, pixel by pixel over the region the two rasters share;
/// whatever lies outside that region keeps its value.
pub fn merge_layer(base: &mut Raster, top: &Raster)
    requires
        old(base).wf(),
        top.wf(),
    ensures
        final(base).wf(),
        final(base).width == old(base).width,
        final(base).height == old(base).height,
        final(base).pixels@.len() == old(base).pixels@.len(),
        forall|x: int, y: int|
            0 <= x < vstd::math::min(old(base).width as int, top.width as int) && 0 <= y
                < vstd::math::min(old(base).height as int, top.height as int) ==> spec_blend(
                top.pixels@[y * (top.width as int) + x],
                old(base).pixels@[y * (old(base).width as int) + x],
                #[trigger] final(base).pixels@[y * (old(base).width as int) + x],
            ),
        forall|x: int, y: int|
            0 <= x < old(base).width && 0 <= y < old(base).height && (x >= vstd::math::min(
                old(base).width as int,
                top.width as int,
            ) || y >= vstd::math::min(old(base).height as int, top.height as int))
                ==> #[trigger] final(base).pixels@[y * (old(base).width as int) + x] == old(
                base,
            ).pixels@[y * (old(base).width as int) + x],
{
    let bw = base.width;
    let bh = base.height;
    if bw == 0 {
        return ;
    }
    let ow: u32 = if top.get_width() < bw {
        top.get_width()
    } else {
        bw
    };
    let oh: u32 = if top.get_height() < bh {
        top.get_height()
    } else {
        bh
    };
    let tlen = top.pixels.len();
    let n = base.pixels.len();
    let mut i: usize = 0;
    while i < n
        invariant
            i <= n,
            n == old(base).pixels@.len(),
            base.pixels@.len() == n,
            base.width == old(base).width,
            base.height == old(base).height,
            bw == old(base).width,
            bh == old(base).height,
            bw > 0,
            ow == vstd::math::min(bw as int, top.width as int),
            oh == vstd::math::min(bh as int, top.height as int),
            tlen == top.pixels@.len(),
            old(base).wf(),
            top.wf(),
            forall|j: int|
                0 <= j < i ==> spec_merged_at(
                    old(base).pixels@,
                    base.pixels@,
                    top.pixels@,
                    bw as int,
                    top.width as int,
                    ow as int,
                    oh as int,
                    j,
                ),
            forall|j: int| i <= j < n ==> base.pixels@[j] == old(base).pixels@[j],
        decreases n - i,
    {
        let x64 = (i as u64) % (bw as u64);
        let y64 = (i as u64) / (bw as u64);
        let ghost prev = base.pixels@;
        if x64 < ow as u64 && y64 < oh as u64 {
            proof {
                raster::lemma_pixel_index_in_range(
                    top.width as int,
                    top.height as int,
                    x64 as int,
                    y64 as int,
                );
            }
            let tidx = (y64 * (top.get_width() as u64) + x64) as usize;
            let out = Renderer::blend_rgba(top.pixels[tidx], base.pixels[i]);
            base.pixels.set(i, out);
        }
        proof {
            assert forall|j: int|
                0 <= j < i + 1 implies spec_merged_at(
                old(base).pixels@,
                base.pixels@,
                top.pixels@,
                bw as int,
                top.width as int,
                ow as int,
                oh as int,
                j,
            ) by {
                if j < i {
                    assert(base.pixels@[j] == prev[j]);
                    assert(spec_merged_at(
                        old(base).pixels@,
                        prev,
                        top.pixels@,
                        bw as int,
                        top.width as int,
                        ow as int,
                        oh as int,
                        j,
                    ));
                } else {
                    assert(x64 as int == j % (bw as int));
                    assert(y64 as int == j / (bw as int));
                }
            }
        }
        i = i + 1;
    }
    proof {
        assert forall|x: int, y: int|
            0 <= x < ow && 0 <= y < oh implies spec_blend(
            top.pixels@[y * (top.width as int) + x],
            old(base).pixels@[y * (bw as int) + x],
            #[trigger] base.pixels@[y * (bw as int) + x],
        ) by {
            let j = y * (bw as int) + x;
            raster::lemma_pixel_index_in_range(bw as int, bh as int, x, y);
            vstd::arithmetic::div_mod::lemma_fundamental_div_mod_converse(j, bw as int, y, x);
            assert(spec_merged_at(
                old(base).pixels@,
                base.pixels@,
                top.pixels@,
                bw as int,
                top.width as int,
                ow as int,
                oh as int,
                j,
            ));
        }
        assert forall|x: int, y: int|
            0 <= x < bw && 0 <= y < bh && (x >= ow || y >= oh) implies #[trigger] base.pixels@[y * (
        bw as int) + x] == old(base).pixels@[y * (bw as int) + x] by {
            let j = y * (bw as int) + x;
            raster::lemma_pixel_index_in_range(bw as int, bh as int, x, y);
            vstd::arithmetic::div_mod::lemma_fundamental_div_mod_converse(j, bw as int, y, x);
            assert(spec_merged_at(
                old(base).pixels@,
                base.pixels@,
                top.pixels@,
                bw as int,
                top.width as int,
                ow as int,
                oh as int,
                j,
            ));
        }
    }
}

/// The pixel of `bg` that lands at flat index `i` after `bg` is cropped to
/// width `cw`: row `i / cw`, column `i % cw` of the uncropped buffer.
pub open spec fn spec_cropped_px(bg: Raster, cw: int, i: int) -> [u8; 4] {
    bg.pixels@[(i / cw) * (bg.width as int) + i % cw]
}

impl<'a> Renderer<'a> {
    /// Creates a translucent base image: the caller-supplied background,
    /// cropped to the mask's dimensions when it is larger in either
    /// direction, with the translucent base image blended over it through
    /// the mask.
    pub fn create_translucent_base(
        &self,
        background: Raster,
        translucent_base: &Raster,
        mask: &Raster,
    ) -> (r: Raster)
        requires
            background.wf(),
        ensures
            r.wf(),
            ({
                let cw = if background.width > mask.width || background.height > mask.height {
                    vstd::math::min(mask.width as int, background.width as int)
                } else {
                    background.width as int
                };
                let ch = if background.width > mask.width || background.height > mask.height {
                    vstd::math::min(mask.height as int, background.height as int)
                } else {
                    background.height as int
                };
                &&& r.width == cw
                &&& r.height == ch
                &&& forall|i: int|
                    0 <= i < spec_min3(
                        cw * ch,
                        translucent_base.pixels@.len() as int,
                        mask.pixels@.len() as int,
                    ) ==> spec_mask_blend(
                        spec_cropped_px(background, cw, i),
                        translucent_base.pixels@[i],
                        mask.pixels@[i],
                        #[trigger] r.pixels@[i],
                    )
                &&& forall|i: int|
                    spec_min3(
                        cw * ch,
                        translucent_base.pixels@.len() as int,
                        mask.pixels@.len() as int,
                    ) <= i < cw * ch ==> #[trigger] r.pixels@[i] == spec_cropped_px(
                        background,
                        cw,
                        i,
                    )
            }),
            background.width >= mask.width && background.height >= mask.height ==> r.width
                == mask.width && r.height == mask.height,
    {
        let width = mask.get_width();
        let height = mask.get_height();
        let ghost bg0 = background;
        let mut background_img = background;
        if background_img.get_width() > width || background_img.get_height() > height {
            background_img = background_img.crop_to(width, height);
        }
        let ghost cw = background_img.width as int;
        let ghost ch = background_img.height as int;
        proof {
            assert forall|i: int| 0 <= i < cw * ch implies #[trigger] background_img.pixels@[i]
                == spec_cropped_px(bg0, cw, i) by {
                if cw > 0 {
                    lemma_multiply_divide_lt(i, cw, ch);
                    raster::lemma_pixel_index_in_range(cw, ch, i % cw, i / cw);
                    vstd::arithmetic::div_mod::lemma_fundamental_div_mod(i, cw);
                    assert((i / cw) * cw + i % cw == i) by (nonlinear_arith)
                        requires
                            i == cw * (i / cw) + i % cw,
                    ;
                    assert(background_img.pixels@[(i / cw) * cw + i % cw] == bg0.pixels@[(i / cw)
                        * (bg0.width as int) + i % cw]);
                } else {
                    assert(false);
                }
            }
        }
        Renderer::overlay_with_mask(&mut background_img, translucent_base, mask);
        background_img
    }
}

proof fn lemma_channel_opaque(s: int, d: int, da: int)
    requires
        0 <= s <= 255,
        0 <= d <= 255,
        0 <= da <= 255,
    ensures
        spec_blend_channel(s, d, 255, da) == s,
{
    assert(blend_n(255, da) == 65025);
    assert(2 * (255 * s * 255 + d * da * (255 - 255)) + 65025 == s * 130050 + 65025)
        by (nonlinear_arith);
    vstd::arithmetic::div_mod::lemma_fundamental_div_mod_converse(
        s * 130050 + 65025,
        130050,
        s,
        65025,
    );
}

proof fn lemma_channel_transparent(s: int, d: int, da: int)
    requires
        0 <= s <= 255,
        0 <= d <= 255,
        1 <= da <= 255,
    ensures
        spec_blend_channel(s, d, 0, da) == d,
{
    let m = 255 * da;
    assert(blend_n(0, da) == m);
    assert(2 * (255 * s * 0 + d * da * (255 - 0)) + 255 * da == (255 * da) * (2 * d + 1))
        by (nonlinear_arith);
    assert(2 * m == m * 2);
    vstd::arithmetic::div_mod::lemma_div_denominator(m * (2 * d + 1), m, 2);
    vstd::arithmetic::div_mod::lemma_div_multiples_vanish(2 * d + 1, m);
    vstd::arithmetic::div_mod::lemma_fundamental_div_mod_converse(2 * d + 1, 2, d, 1);
    assert(spec_blend_channel(s, d, 0, da) == (m * (2 * d + 1)) / (m * 2));
}

proof fn lemma_alpha_transparent(da: int)
    requires
        1 <= da <= 255,
    ensures
        spec_blend_alpha(0, da) == da,
{
    let m = 255 * da;
    assert(blend_n(0, da) == m);
    assert(2 * (255 * da) + 255 == 255 * (2 * da + 1)) by (nonlinear_arith);
    vstd::arithmetic::div_mod::lemma_div_denominator(255 * (2 * da + 1), 255, 2);
    vstd::arithmetic::div_mod::lemma_div_multiples_vanish(2 * da + 1, 255);
    vstd::arithmetic::div_mod::lemma_fundamental_div_mod_converse(2 * da + 1, 2, da, 1);
}

/// A fully opaque source pixel blends to exactly itself: in the layer merge,
/// fully-opaque top pixels replace whatever lies below.
pub proof fn lemma_blend_opaque_src(src: [u8; 4], dst: [u8; 4], out: [u8; 4])
    requires
        spec_blend(src, dst, out),
        src[3] == 255,
    ensures
        px_eq(out, src),
{
    lemma_channel_opaque(src[0] as int, dst[0] as int, dst[3] as int);
    lemma_channel_opaque(src[1] as int, dst[1] as int, dst[3] as int);
    lemma_channel_opaque(src[2] as int, dst[2] as int, dst[3] as int);
    assert(spec_blend_alpha(255, dst[3] as int) == 255);
}

/// A fully transparent source pixel blends to exactly the destination, as
/// long as the destination is not itself fully transparent: in the layer
/// merge, fully-transparent top pixels are no-ops. (Over a fully
/// transparent destination the result is transparent black instead.)
pub proof fn lemma_blend_transparent_src(src: [u8; 4], dst: [u8; 4], out: [u8; 4])
    requires
        spec_blend(src, dst, out),
        src[3] == 0,
        dst[3] != 0,
    ensures
        px_eq(out, dst),
{
    lemma_channel_transparent(src[0] as int, dst[0] as int, dst[3] as int);
    lemma_channel_transparent(src[1] as int, dst[1] as int, dst[3] as int);
    lemma_channel_transparent(src[2] as int, dst[2] as int, dst[3] as int);
    lemma_alpha_transparent(dst[3] as int);
}

/// The substitution pattern of a placeholder name: the name in braces.
pub open spec fn spec_braced(name: Seq<char>) -> Seq<char> {
    seq!['{'] + name + seq!['}']
}

/// The template text after every map entry was substituted, in map order:
/// each step replaces every occurrence of `{name}` by the entry's value.
pub open spec fn spec_apply_substitutions(code: Seq<char>, entries: Seq<(String, String)>) -> Seq<
    char,
>
    decreases entries.len(),
{
    if entries.len() == 0 {
        code
    } else {
        spec_apply_substitutions(
            crate::strutil::spec_replace_all(code, spec_braced(entries[0].0@), entries[0].1@),
            entries.drop_first(),
        )
    }
}

/// Whether some string in `v` reads `s`.
pub open spec fn spec_contains_str(v: Seq<String>, s: Seq<char>) -> bool {
    exists|j: int| 0 <= j < v.len() && v[j]@ == s
}

/// The map names that the declared placeholder list does not hold, in map
/// order: one "used but undeclared" diagnostic arises per such name.
pub open spec fn spec_undeclared(declared: Seq<String>, entries: Seq<(String, String)>) -> Seq<
    String,
>
    decreases entries.len(),
{
    if entries.len() == 0 {
        Seq::empty()
    } else {
        let rest = spec_undeclared(declared, entries.drop_first());
        if spec_contains_str(declared, entries[0].0@) {
            rest
        } else {
            seq![entries[0].0] + rest
        }
    }
}

/// The position of the first string in `v` reading `name`, or -1.
pub open spec fn spec_first_index_of(v: Seq<String>, name: Seq<char>) -> int
    decreases v.len(),
{
    if v.len() == 0 {
        -1
    } else if v[0]@ == name {
        0
    } else {
        let r = spec_first_index_of(v.drop_first(), name);
        if r < 0 {
            -1
        } else {
            r + 1
        }
    }
}

/// `v` with the first string reading `name` taken out, if one is there.
pub open spec fn spec_remove_first(v: Seq<String>, name: Seq<char>) -> Seq<String> {
    let i = spec_first_index_of(v, name);
    if i < 0 {
        v
    } else {
        v.remove(i)
    }
}

/// The declared placeholders still unaccounted for after every map entry
/// struck out one occurrence of its name: the "declared but unused" names.
pub open spec fn spec_unused(unused: Seq<String>, entries: Seq<(String, String)>) -> Seq<String>
    decreases entries.len(),
{
    if entries.len() == 0 {
        unused
    } else {
        spec_unused(spec_remove_first(unused, entries[0].0@), entries.drop_first())
    }
}

proof fn lemma_undeclared_from_entries(declared: Seq<String>, entries: Seq<(String, String)>)
    ensures
        forall|i: int|
            0 <= i < spec_undeclared(declared, entries).len() ==> exists|j: int|
                0 <= j < entries.len() && #[trigger] spec_undeclared(declared, entries)[i] == (
                #[trigger] entries[j]).0,
    decreases entries.len(),
{
    if entries.len() > 0 {
        let rest_entries = entries.drop_first();
        lemma_undeclared_from_entries(declared, rest_entries);
        let und = spec_undeclared(declared, entries);
        let rest = spec_undeclared(declared, rest_entries);
        assert forall|i: int| #![trigger und[i]] 0 <= i < und.len() implies exists|j: int|
            0 <= j < entries.len() && und[i] == (#[trigger] entries[j]).0 by {
            if spec_contains_str(declared, entries[0].0@) {
                assert(und[i] == rest[i]);
                let j0 = choose|j0: int| 0 <= j0 < rest_entries.len() && rest[i] == rest_entries[j0].0;
                assert(rest_entries[j0] == entries[j0 + 1]);
                assert(und[i] == entries[j0 + 1].0);
            } else {
                if i == 0 {
                    assert(und[0] == entries[0].0);
                } else {
                    assert(und[i] == rest[i - 1]);
                    let j0 = choose|j0: int|
                        0 <= j0 < rest_entries.len() && rest[i - 1] == rest_entries[j0].0;
                    assert(rest_entries[j0] == entries[j0 + 1]);
                    assert(und[i] == entries[j0 + 1].0);
                }
            }
        }
    }
}

/// Under the maps' one-entry-per-name invariant, the "used but undeclared"
/// diagnostics name each offending placeholder exactly once: the warning
/// list that `replace_placeholders` fixes holds no name twice.
pub proof fn lemma_undeclared_names_unique(declared: Seq<String>, entries: Seq<(String, String)>)
    requires
        crate::placeholders::unique_keys(entries),
    ensures
        forall|i: int, j: int|
            #![trigger spec_undeclared(declared, entries)[i], spec_undeclared(declared, entries)[j]]
            0 <= i < j < spec_undeclared(declared, entries).len() ==> spec_undeclared(
                declared,
                entries,
            )[i]@ != spec_undeclared(declared, entries)[j]@,
    decreases entries.len(),
{
    if entries.len() > 0 {
        let rest_entries = entries.drop_first();
        assert forall|a: int, b: int|
            0 <= a < b < rest_entries.len() implies (#[trigger] rest_entries[a]).0@ != (
        #[trigger] rest_entries[b]).0@ by {
            assert(rest_entries[a] == entries[a + 1]);
            assert(rest_entries[b] == entries[b + 1]);
        }
        lemma_undeclared_names_unique(declared, rest_entries);
        lemma_undeclared_from_entries(declared, rest_entries);
        let und = spec_undeclared(declared, entries);
        let rest = spec_undeclared(declared, rest_entries);
        assert forall|i: int, j: int|
            0 <= i < j < und.len() implies und[i]@ != und[j]@ by {
            if spec_contains_str(declared, entries[0].0@) {
                assert(und[i] == rest[i] && und[j] == rest[j]);
            } else {
                if i == 0 {
                    assert(und[j] == rest[j - 1]);
                    let j0 = choose|j0: int|
                        0 <= j0 < rest_entries.len() && rest[j - 1] == rest_entries[j0].0;
                    assert(rest_entries[j0] == entries[j0 + 1]);
                    assert(entries[0].0@ != entries[j0 + 1].0@);
                    assert(und[0] == entries[0].0);
                } else {
                    assert(und[i] == rest[i - 1] && und[j] == rest[j - 1]);
                }
            }
        }
    }
}

proof fn lemma_first_index_found(v: Seq<String>, name: Seq<char>, j: int)
    requires
        0 <= j < v.len(),
        forall|k: int| 0 <= k < j ==> v[k]@ != name,
        v[j]@ == name,
    ensures
        spec_first_index_of(v, name) == j,
    decreases j,
{
    if j > 0 {
        assert(forall|k: int| 0 <= k < j - 1 ==> v.drop_first()[k]@ != name);
        lemma_first_index_found(v.drop_first(), name, j - 1);
    }
}

proof fn lemma_first_index_none(v: Seq<String>, name: Seq<char>)
    requires
        forall|k: int| 0 <= k < v.len() ==> v[k]@ != name,
    ensures
        spec_first_index_of(v, name) == -1,
    decreases v.len(),
{
    if v.len() > 0 {
        assert(forall|k: int| 0 <= k < v.drop_first().len() ==> v.drop_first()[k]@ != name);
        lemma_first_index_none(v.drop_first(), name);
    }
}

/// Strikes out the first element of `v` reading `name`, if one is there.
fn remove_first_string(v: &mut Vec<String>, name: &str)
    ensures
        final(v)@ == spec_remove_first(old(v)@, name@),
{
    let mut j: usize = 0;
    while j < v.len()
        invariant
            j <= v@.len(),
            v@ == old(v)@,
            forall|k: int| 0 <= k < j ==> v@[k]@ != name@,
        decreases v@.len() - j,
    {
        if crate::strutil::str_eq(v[j].as_str(), name) {
            proof {
                lemma_first_index_found(v@, name@, j as int);
            }
            v.remove(j);
            return ;
        }
        j = j + 1;
    }
    proof {
        lemma_first_index_none(v@, name@);
    }
}

/// Builds the `{name}` pattern for a placeholder name.
fn braced_pattern(name: &str) -> (r: Vec<char>)
    ensures
        r@ == spec_braced(name@),
        r@.len() > 0,
{
    let mut r: Vec<char> = Vec::new();
    r.push('{');
    let cs = crate::strutil::str_to_chars(name);
    let mut i: usize = 0;
    while i < cs.len()
        invariant
            i <= cs@.len(),
            r@ == seq!['{'] + cs@.take(i as int),
        decreases cs@.len() - i,
    {
        r.push(cs[i]);
        proof {
            assert(r@ =~= seq!['{'] + cs@.take(i + 1));
        }
        i = i + 1;
    }
    r.push('}');
    proof {
        assert(cs@.take(cs@.len() as int) =~= cs@);
        assert(r@ =~= spec_braced(name@));
    }
    r
}

impl<'a> Renderer<'a> {
    /// Replaces placeholders with values in SVG code, and reports the
    /// non-fatal diagnostics that arose: one record per substituted name the
    /// schema does not declare, and one record listing the declared names
    /// that no substitution accounted for, if any are left.
    ///
    /// # Arguments
    ///
    /// - `schema_placeholders` - The placeholders specified in the schema.
    /// - `placeholder_values` - The placeholder values to use.
    /// - `svg_code` - The SVG code to replace placeholders in.
    /// - `used_placeholders` - The placeholders that have been used.
    /// - `unused_placeholders` - The placeholders that have not been used.
    pub fn replace_placeholders(
        schema_placeholders: &Vec<String>,
        placeholder_values: &PlaceholderValueMap,
        svg_code: String,
        used_placeholders: &mut Vec<String>,
        unused_placeholders: Vec<String>,
    ) -> (r: (String, Vec<PlaceholderWarning>))
        ensures
            r.0@ == spec_apply_substitutions(svg_code@, placeholder_values@),
            final(used_placeholders)@ == old(used_placeholders)@ + placeholder_values@.map_values(
                |e: (String, String)| e.0,
            ),
            ({
                let und = spec_undeclared(schema_placeholders@, placeholder_values@);
                let unu = spec_unused(unused_placeholders@, placeholder_values@);
                &&& r.1@.len() == und.len() + if unu.len() > 0 {
                    1int
                } else {
                    0int
                }
                &&& forall|i: int|
                    0 <= i < und.len() ==> match #[trigger] r.1@[i] {
                        PlaceholderWarning::Undeclared(n) => n == und[i],
                        _ => false,
                    }
                &&& unu.len() > 0 ==> match r.1@.last() {
                    PlaceholderWarning::Unused(v) => v@ == unu,
                    _ => false,
                }
            }),
    {
        let n = placeholder_values.len();
        let mut code = crate::strutil::str_to_chars(svg_code.as_str());
        let mut unused = unused_placeholders;
        let mut warnings: Vec<PlaceholderWarning> = Vec::new();
        let ghost entries = placeholder_values@;
        let ghost mut und_so_far: Seq<String> = Seq::empty();
        let mut i: usize = 0;
        proof {
            assert(entries.skip(0) =~= entries);
            assert(used_placeholders@ =~= old(used_placeholders)@ + entries.take(0).map_values(
                |e: (String, String)| e.0,
            ));
        }
        while i < n
            invariant
                i <= n,
                n == entries.len(),
                entries == placeholder_values@,
                spec_apply_substitutions(svg_code@, entries) == spec_apply_substitutions(
                    code@,
                    entries.skip(i as int),
                ),
                used_placeholders@ == old(used_placeholders)@ + entries.take(i as int).map_values(
                    |e: (String, String)| e.0,
                ),
                spec_undeclared(schema_placeholders@, entries) == und_so_far + spec_undeclared(
                    schema_placeholders@,
                    entries.skip(i as int),
                ),
                warnings@ == und_so_far.map_values(|s: String| PlaceholderWarning::Undeclared(s)),
                spec_unused(unused_placeholders@, entries) == spec_unused(
                    unused@,
                    entries.skip(i as int),
                ),
            decreases n - i,
        {
            let ghost rest = entries.skip(i as int);
            let name = &placeholder_values[i].0;
            let value = &placeholder_values[i].1;
            let pat = braced_pattern(name.as_str());
            let val_chars = crate::strutil::str_to_chars(value.as_str());
            code = crate::strutil::replace_all(&code, &pat, &val_chars);
            used_placeholders.push(name.clone());
            if !crate::strutil::contains_string(schema_placeholders, name.as_str()) {
                warnings.push(PlaceholderWarning::Undeclared(name.clone()));
                proof {
                    let prev = und_so_far;
                    und_so_far = und_so_far.push(entries[i as int].0);
                    assert(warnings@ =~= und_so_far.map_values(
                        |s: String| PlaceholderWarning::Undeclared(s),
                    ));
                    assert(und_so_far + spec_undeclared(schema_placeholders@, entries.skip(i + 1))
                        =~= prev + (seq![entries[i as int].0] + spec_undeclared(
                        schema_placeholders@,
                        entries.skip(i + 1),
                    )));
                }
            }
            remove_first_string(&mut unused, name.as_str());
            proof {
                assert(rest[0] == entries[i as int]);
                assert(rest.drop_first() =~= entries.skip(i + 1));
                assert(used_placeholders@ =~= old(used_placeholders)@ + entries.take(
                    i + 1,
                ).map_values(|e: (String, String)| e.0));
            }
            i = i + 1;
        }
        proof {
            assert(entries.skip(n as int) =~= Seq::<(String, String)>::empty());
            assert(entries.take(n as int) =~= entries);
        }
        proof {
            assert(und_so_far =~= spec_undeclared(schema_placeholders@, entries));
        }
        if unused.len() > 0 {
            warnings.push(PlaceholderWarning::Unused(unused));
        }
        let out = crate::strutil::chars_to_string(&code);
        (out, warnings)
    }
}

/// One un-premultiplied color channel, rounded to nearest and clamped: a
/// fully transparent pixel flattens to zero, otherwise the premultiplied
/// byte is scaled back by the pixel's alpha.
pub open spec fn spec_demul_channel(c: int, a: int) -> int {
    if a == 0 {
        0
    } else {
        vstd::math::min((2 * 255 * c + a) / (2 * a), 255)
    }
}

/// `px` is the straight-alpha pixel decoded from the four premultiplied
/// bytes of pixel `j` of a pixmap's buffer.
pub open spec fn spec_demultiplied(bytes: Seq<u8>, px: [u8; 4], j: int) -> bool {
    let a = bytes[4 * j + 3] as int;
    &&& px[0] == spec_demul_channel(bytes[4 * j] as int, a)
    &&& px[1] == spec_demul_channel(bytes[4 * j + 1] as int, a)
    &&& px[2] == spec_demul_channel(bytes[4 * j + 2] as int, a)
    &&& px[3] == a
}

fn demul_channel(c: u8, a: u8) -> (r: u8)
    ensures
        r as int == spec_demul_channel(c as int, a as int),
{
    if a == 0 {
        return 0;
    }
    let c64 = c as u64;
    let a64 = a as u64;
    proof {
        assert(510 * c64 <= 130050);
    }
    let v: u64 = (510 * c64 + a64) / (2 * a64);
    if v > 255 {
        255
    } else {
        v as u8
    }
}

/// Flattens a drawn pixmap into a plain RGBA raster, un-premultiplying
/// every pixel.
fn flatten_pixmap(pixmap: &resvg::tiny_skia::Pixmap) -> (r: Raster)
    ensures
        r.wf(),
        r.width == svg::pixmap_width(*pixmap),
        r.height == svg::pixmap_height(*pixmap),
        forall|j: int|
            0 <= j < r.pixels@.len() ==> spec_demultiplied(
                svg::pixmap_bytes(*pixmap),
                #[trigger] r.pixels@[j],
                j,
            ),
{
    let w = pixmap.width();
    let h = pixmap.height();
    let data = vstd::slice::slice_to_vec(pixmap.data());
    let count = data.len() / 4;
    proof {
        assert(4 * (w as int) * (h as int) == 4 * ((w as int) * (h as int))) by (nonlinear_arith);
        vstd::arithmetic::div_mod::lemma_div_multiples_vanish((w as int) * (h as int), 4);
    }
    let mut pixels: Vec<[u8; 4]> = Vec::new();
    let mut j: usize = 0;
    while j < count
        invariant
            j <= count,
            count == (w as int) * (h as int),
            data@.len() == 4 * count,
            data@.len() <= usize::MAX,
            data@ == svg::pixmap_bytes(*pixmap),
            pixels@.len() == j,
            forall|k: int|
                0 <= k < j ==> spec_demultiplied(data@, #[trigger] pixels@[k], k),
        decreases count - j,
    {
        proof {
            assert(4 * j + 3 < data@.len());
        }
        let a = data[4 * j + 3];
        let px: [u8; 4] = [
            demul_channel(data[4 * j], a),
            demul_channel(data[4 * j + 1], a),
            demul_channel(data[4 * j + 2], a),
            a,
        ];
        pixels.push(px);
        j = j + 1;
    }
    Raster { width: w, height: h, pixels }
}

/// The rendered template bytes of every fragment group, read by the caller,
/// one entry per fragment in group order.
pub struct FragmentTemplates {
    /// The template bytes of the text fragments.
    pub text: Vec<Vec<u8>>,
    /// The template bytes of the image fragments.
    pub images: Vec<Vec<u8>>,
    /// The template bytes of the shape fragments.
    pub shapes: Vec<Vec<u8>>,
}

fn duplicate_text_fragments(v: &Vec<crate::schema::v1::TextFragment>) -> (r: Vec<
    crate::schema::v1::TextFragment,
>)
    ensures
        r@.len() == v@.len(),
{
    let mut r: Vec<crate::schema::v1::TextFragment> = Vec::new();
    let mut i: usize = 0;
    while i < v.len()
        invariant
            i <= v@.len(),
            r@.len() == i,
        decreases v@.len() - i,
    {
        r.push(v[i].duplicate());
        i = i + 1;
    }
    r
}

fn duplicate_image_fragments(v: &Vec<crate::schema::v1::ImageFragment>) -> (r: Vec<
    crate::schema::v1::ImageFragment,
>)
    ensures
        r@.len() == v@.len(),
{
    let mut r: Vec<crate::schema::v1::ImageFragment> = Vec::new();
    let mut i: usize = 0;
    while i < v.len()
        invariant
            i <= v@.len(),
            r@.len() == i,
        decreases v@.len() - i,
    {
        r.push(v[i].duplicate());
        i = i + 1;
    }
    r
}

fn duplicate_shape_fragments(v: &Vec<crate::schema::v1::ShapeFragment>) -> (r: Vec<
    crate::schema::v1::ShapeFragment,
>)
    ensures
        r@.len() == v@.len(),
{
    let mut r: Vec<crate::schema::v1::ShapeFragment> = Vec::new();
    let mut i: usize = 0;
    while i < v.len()
        invariant
            i <= v@.len(),
            r@.len() == i,
        decreases v@.len() - i,
    {
        r.push(v[i].duplicate());
        i = i + 1;
    }
    r
}

impl<'a> Renderer<'a> {
    /// Creates a new pixmap for rendering fragments onto, sized exactly to
    /// the schema's raster size.
    fn create_composite_pixmap(&self) -> (r: Result<resvg::tiny_skia::Pixmap, RenderingError>)
        ensures
            r is Ok <==> svg::spec_pixmap_allocatable(
                self.schema.raster_size.width as int,
                self.schema.raster_size.height as int,
            ),
            r matches Ok(p) ==> svg::pixmap_width(p) == self.schema.raster_size.width
                && svg::pixmap_height(p) == self.schema.raster_size.height && svg::pixmap_bytes(p)
                == Seq::new(
                (4 * self.schema.raster_size.width * self.schema.raster_size.height) as nat,
                |i: int| 0u8,
            ),
            r matches Err(e) ==> e == RenderingError::PixmapAllocationError,
    {
        let raster_size = &self.schema.raster_size;
        match resvg::tiny_skia::Pixmap::new(raster_size.width, raster_size.height) {
            Some(pixmap) => Ok(pixmap),
            None => Err(RenderingError::PixmapAllocationError),
        }
    }

    /// Renders an SVG onto a pixmap.
    ///
    /// # Arguments
    ///
    /// - `svg_code` - The SVG code to render.
    /// - `x` - The X position to render at.
    /// - `y` - The Y position to render at.
    /// - `pixmap` - The pixmap to render onto.
    fn render_svg(
        &self,
        svg_code: &str,
        x: i64,
        y: i64,
        pixmap: &mut resvg::tiny_skia::Pixmap,
    ) -> (r: Result<(), RenderingError>)
        ensures
            svg::pixmap_width(*final(pixmap)) == svg::pixmap_width(*old(pixmap)),
            svg::pixmap_height(*final(pixmap)) == svg::pixmap_height(*old(pixmap)),
            r matches Err(e) ==> e == RenderingError::SVGParseError,
            r is Err ==> *final(pixmap) == *old(pixmap),
    {
        let tree = match resvg::usvg::Tree::from_str(svg_code, self.usvg_options) {
            Ok(tree) => tree,
            Err(_) => {
                return Err(RenderingError::SVGParseError);
            },
        };
        svg::render_tree_onto(&tree, x, y, pixmap);
        Ok(())
    }

    /// Renders all specified fragments onto a pixmap, each template
    /// substituted from its namespace's value map. Fragments can be of any
    /// fragment type.
    ///
    /// # Arguments
    ///
    /// - `fragments` - The fragments to render.
    /// - `templates` - The template bytes of each fragment, in order.
    /// - `fragments_pixmap` - The pixmap to render onto.
    fn render_fragments<T: crate::schema::Fragment>(
        &mut self,
        fragments: &Vec<T>,
        templates: &Vec<Vec<u8>>,
        fragments_pixmap: &mut resvg::tiny_skia::Pixmap,
    ) -> (r: Result<(), RenderingError>)
        requires
            templates@.len() == fragments@.len(),
        ensures
            svg::pixmap_width(*final(fragments_pixmap)) == svg::pixmap_width(
                *old(fragments_pixmap),
            ),
            svg::pixmap_height(*final(fragments_pixmap)) == svg::pixmap_height(
                *old(fragments_pixmap),
            ),
            final(self).schema == old(self).schema,
            final(self).values == old(self).values,
            final(self).usvg_options == old(self).usvg_options,
            old(self).warnings@.is_prefix_of(final(self).warnings@),
            old(self).used_placeholders.text@.is_prefix_of(final(self).used_placeholders.text@),
            old(self).used_placeholders.images@.is_prefix_of(
                final(self).used_placeholders.images@,
            ),
            old(self).used_placeholders.shapes@.is_prefix_of(
                final(self).used_placeholders.shapes@,
            ),
            r is Ok ==> forall|i: int|
                0 <= i < templates@.len() ==> vstd::utf8::valid_utf8(#[trigger] templates@[i]@),
            r matches Err(e) ==> e == RenderingError::UTF8EncodingError || e
                == RenderingError::SVGParseError,
            r matches Err(e) && e == RenderingError::UTF8EncodingError ==> exists|i: int|
                0 <= i < templates@.len() && !vstd::utf8::valid_utf8(#[trigger] templates@[i]@),
            fragments@.len() == 0 ==> r is Ok,
    {
        let n = fragments.len();
        let mut i: usize = 0;
        while i < n
            invariant
                i <= n,
                n == fragments@.len(),
                templates@.len() == n,
                svg::pixmap_width(*fragments_pixmap) == svg::pixmap_width(*old(fragments_pixmap)),
                svg::pixmap_height(*fragments_pixmap) == svg::pixmap_height(
                    *old(fragments_pixmap),
                ),
                self.schema == old(self).schema,
                self.values == old(self).values,
                self.usvg_options == old(self).usvg_options,
                old(self).warnings@.is_prefix_of(self.warnings@),
                old(self).used_placeholders.text@.is_prefix_of(self.used_placeholders.text@),
                old(self).used_placeholders.images@.is_prefix_of(self.used_placeholders.images@),
                old(self).used_placeholders.shapes@.is_prefix_of(self.used_placeholders.shapes@),
                forall|k: int| 0 <= k < i ==> vstd::utf8::valid_utf8(#[trigger] templates@[k]@),
            decreases n - i,
        {
            let fragment = &fragments[i];
            let svg_code = match crate::strutil::bytes_to_utf8_string(&templates[i]) {
                Some(code) => code,
                None => {
                    return Err(RenderingError::UTF8EncodingError);
                },
            };
            let placeholder_values = match fragment.fragment_type() {
                crate::schema::v1::FragmentType::Text => self.values.text(),
                crate::schema::v1::FragmentType::Image => self.values.images(),
                crate::schema::v1::FragmentType::Shape => self.values.shapes(),
            };
            let unused_placeholders = crate::strutil::clone_string_vec(fragment.placeholders());
            let used_placeholders = match fragment.fragment_type() {
                crate::schema::v1::FragmentType::Text => &mut self.used_placeholders.text,
                crate::schema::v1::FragmentType::Image => &mut self.used_placeholders.images,
                crate::schema::v1::FragmentType::Shape => &mut self.used_placeholders.shapes,
            };
            let (svg_code, mut new_warnings) = Renderer::replace_placeholders(
                fragment.placeholders(),
                &placeholder_values,
                svg_code,
                used_placeholders,
                unused_placeholders,
            );
            self.warnings.append(&mut new_warnings);
            let position = fragment.position();
            let x = self.get_x(position.x);
            let y = self.get_y(position.y);
            match self.render_svg(svg_code.as_str(), x, y, fragments_pixmap) {
                Ok(()) => {},
                Err(e) => {
                    return Err(e);
                },
            }
            i = i + 1;
        }
        Ok(())
    }

    /// Renders all fragments onto a background image: the text, image and
    /// shape groups are drawn, in that fixed order, onto one transparent
    /// layer sized to the schema's raster size, and the flattened layer is
    /// then merged onto the background with "straight alpha over"
    /// compositing.
    fn render_to_background(
        &mut self,
        background_img: &mut Raster,
        templates: &FragmentTemplates,
    ) -> (r: Result<(), RenderingError>)
        requires
            old(background_img).wf(),
            templates.text@.len() == old(self).schema.fragments.text@.len(),
            templates.images@.len() == old(self).schema.fragments.images@.len(),
            templates.shapes@.len() == old(self).schema.fragments.shapes@.len(),
        ensures
            final(background_img).wf(),
            final(background_img).width == old(background_img).width,
            final(background_img).height == old(background_img).height,
            final(self).schema == old(self).schema,
            final(self).values == old(self).values,
            final(self).usvg_options == old(self).usvg_options,
            old(self).warnings@.is_prefix_of(final(self).warnings@),
            old(self).used_placeholders.text@.is_prefix_of(final(self).used_placeholders.text@),
            old(self).used_placeholders.images@.is_prefix_of(
                final(self).used_placeholders.images@,
            ),
            old(self).used_placeholders.shapes@.is_prefix_of(
                final(self).used_placeholders.shapes@,
            ),
            r matches Err(e) ==> e == RenderingError::PixmapAllocationError || e
                == RenderingError::UTF8EncodingError || e == RenderingError::SVGParseError,
            old(self).schema.raster_size.width == 0 || old(self).schema.raster_size.height == 0
                ==> r is Err,
            svg::spec_pixmap_allocatable(
                old(self).schema.raster_size.width as int,
                old(self).schema.raster_size.height as int,
            ) && templates.text@.len() == 0 && templates.images@.len() == 0
                && templates.shapes@.len() == 0 ==> r is Ok,
    {
        let mut fragments_pixmap = match self.create_composite_pixmap() {
            Ok(pixmap) => pixmap,
            Err(e) => {
                return Err(e);
            },
        };
        let text_fragments = duplicate_text_fragments(&self.schema.fragments.text);
        match self.render_fragments(&text_fragments, &templates.text, &mut fragments_pixmap) {
            Ok(()) => {},
            Err(e) => {
                return Err(e);
            },
        }
        let image_fragments = duplicate_image_fragments(&self.schema.fragments.images);
        match self.render_fragments(&image_fragments, &templates.images, &mut fragments_pixmap) {
            Ok(()) => {},
            Err(e) => {
                return Err(e);
            },
        }
        let shape_fragments = duplicate_shape_fragments(&self.schema.fragments.shapes);
        match self.render_fragments(&shape_fragments, &templates.shapes, &mut fragments_pixmap) {
            Ok(()) => {},
            Err(e) => {
                return Err(e);
            },
        }
        let fragments_img = flatten_pixmap(&fragments_pixmap);
        merge_layer(background_img, &fragments_img);
        Ok(())
    }

    /// Renders the layout to the opaque base image: the caller supplies the
    /// decoded opaque static base, obtained through the image cache or
    /// straight from disk.
    pub fn render_opaque(&mut self, opaque_base: Raster, templates: &FragmentTemplates) -> (r:
        Result<Raster, RenderingError>)
        requires
            opaque_base.wf(),
            templates.text@.len() == old(self).schema.fragments.text@.len(),
            templates.images@.len() == old(self).schema.fragments.images@.len(),
            templates.shapes@.len() == old(self).schema.fragments.shapes@.len(),
        ensures
            final(self).schema == old(self).schema,
            final(self).values == old(self).values,
            final(self).usvg_options == old(self).usvg_options,
            old(self).warnings@.is_prefix_of(final(self).warnings@),
            old(self).used_placeholders.text@.is_prefix_of(final(self).used_placeholders.text@),
            old(self).used_placeholders.images@.is_prefix_of(
                final(self).used_placeholders.images@,
            ),
            old(self).used_placeholders.shapes@.is_prefix_of(
                final(self).used_placeholders.shapes@,
            ),
            svg::spec_pixmap_allocatable(
                old(self).schema.raster_size.width as int,
                old(self).schema.raster_size.height as int,
            ) && templates.text@.len() == 0 && templates.images@.len() == 0
                && templates.shapes@.len() == 0 ==> r is Ok,
            r matches Ok(img) ==> img.wf() && img.width == opaque_base.width && img.height
                == opaque_base.height,
            opaque_base.width == old(self).schema.raster_size.width && opaque_base.height == old(
                self,
            ).schema.raster_size.height ==> (r matches Ok(img) ==> img.width == old(
                self,
            ).schema.raster_size.width && img.height == old(self).schema.raster_size.height),
            r matches Err(e) ==> e == RenderingError::PixmapAllocationError || e
                == RenderingError::UTF8EncodingError || e == RenderingError::SVGParseError,
    {
        let mut base = opaque_base;
        match self.render_to_background(&mut base, templates) {
            Ok(()) => Ok(base),
            Err(e) => Err(e),
        }
    }

    /// Renders the layout to the translucent base image using the specified
    /// background image: the caller supplies the decoded translucent static
    /// base and mask, obtained through the image cache or straight from
    /// disk.
    pub fn render_translucent(
        &mut self,
        background_img: Raster,
        translucent_base: &Raster,
        mask: &Raster,
        templates: &FragmentTemplates,
    ) -> (r: Result<Raster, RenderingError>)
        requires
            background_img.wf(),
            templates.text@.len() == old(self).schema.fragments.text@.len(),
            templates.images@.len() == old(self).schema.fragments.images@.len(),
            templates.shapes@.len() == old(self).schema.fragments.shapes@.len(),
        ensures
            final(self).schema == old(self).schema,
            final(self).values == old(self).values,
            final(self).usvg_options == old(self).usvg_options,
            old(self).warnings@.is_prefix_of(final(self).warnings@),
            old(self).used_placeholders.text@.is_prefix_of(final(self).used_placeholders.text@),
            old(self).used_placeholders.images@.is_prefix_of(
                final(self).used_placeholders.images@,
            ),
            old(self).used_placeholders.shapes@.is_prefix_of(
                final(self).used_placeholders.shapes@,
            ),
            svg::spec_pixmap_allocatable(
                old(self).schema.raster_size.width as int,
                old(self).schema.raster_size.height as int,
            ) && templates.text@.len() == 0 && templates.images@.len() == 0
                && templates.shapes@.len() == 0 ==> r is Ok,
            r matches Ok(img) ==> img.wf(),
            background_img.width >= mask.width && background_img.height >= mask.height ==> (
            r matches Ok(img) ==> img.width == mask.width && img.height == mask.height),
            r matches Err(e) ==> e == RenderingError::PixmapAllocationError || e
                == RenderingError::UTF8EncodingError || e == RenderingError::SVGParseError,
    {
        let mut static_base = self.create_translucent_base(background_img, translucent_base, mask);
        match self.render_to_background(&mut static_base, templates) {
            Ok(()) => Ok(static_base),
            Err(e) => Err(e),
        }
    }
}

/// Under a pure-white mask an opaque top pixel replaces the background and a
/// fully transparent one leaves it unchanged; under any other mask value the
/// top pixel replaces the background whatever its alpha.
pub proof fn lemma_mask_blend_cases(bg: [u8; 4], top: [u8; 4], mask: [u8; 4], out: [u8; 4])
    requires
        spec_mask_blend(bg, top, mask, out),
    ensures
        mask[0] == 255 && top[3] == 255 ==> px_eq(out, top),
        mask[0] == 255 && top[3] == 0 ==> px_eq(out, bg),
        mask[0] != 255 ==> px_eq(out, top),
{
}

} // verus!
