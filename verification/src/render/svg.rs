//! The vector-markup backend: declarations and contracts for the outside
//! parser/rasterizer the engine draws with. A pixmap is an opaque pixel
//! container; the names below stand for its dimensions and its bytes.

use vstd::prelude::*;

verus! {

#[verifier::external_type_specification]
#[verifier::external_body]
pub struct ExOptions<'a>(resvg::usvg::Options<'a>);

#[verifier::external_type_specification]
#[verifier::external_body]
pub struct ExTree(resvg::usvg::Tree);

#[verifier::external_type_specification]
#[verifier::external_body]
pub struct ExUsvgError(resvg::usvg::Error);

#[verifier::external_type_specification]
#[verifier::external_body]
pub struct ExPixmap(resvg::tiny_skia::Pixmap);

/// The width, in pixels, of an outside pixmap.
pub uninterp spec fn pixmap_width(p: resvg::tiny_skia::Pixmap) -> u32;

/// The height, in pixels, of an outside pixmap.
pub uninterp spec fn pixmap_height(p: resvg::tiny_skia::Pixmap) -> u32;

/// The bytes of an outside pixmap: four per pixel, row-major, RGBA order,
/// premultiplied alpha.
pub uninterp spec fn pixmap_bytes(p: resvg::tiny_skia::Pixmap) -> Seq<u8>;

/// The dimensions tiny-skia accepts for a pixmap: both nonzero, a row of
/// at most `i32::MAX` bytes, and a buffer length that fits `usize`.
pub open spec fn spec_pixmap_allocatable(width: int, height: int) -> bool {
    &&& 1 <= width
    &&& 1 <= height
    &&& 4 * width <= i32::MAX as int
    &&& 4 * width * height <= usize::MAX as int
}

/// Relies on tiny-skia's pixmap allocation: dimensions within the limits
/// above give a pixmap of exactly those dimensions, filled with transparent
/// black; a zero dimension or an overflowing buffer size is refused.
pub assume_specification[ resvg::tiny_skia::Pixmap::new ](width: u32, height: u32) -> (r: Option<
    resvg::tiny_skia::Pixmap,
>)
    ensures
        r is Some <==> spec_pixmap_allocatable(width as int, height as int),
        r matches Some(p) ==> {
            &&& pixmap_width(p) == width
            &&& pixmap_height(p) == height
            &&& pixmap_bytes(p) == Seq::new((4 * width * height) as nat, |i: int| 0u8)
        },
;

/// Relies on tiny-skia: a pixmap's stored width.
pub assume_specification[ resvg::tiny_skia::Pixmap::width ](p: &resvg::tiny_skia::Pixmap) -> (r:
    u32)
    ensures
        r == pixmap_width(*p),
;

/// Relies on tiny-skia: a pixmap's stored height.
pub assume_specification[ resvg::tiny_skia::Pixmap::height ](p: &resvg::tiny_skia::Pixmap) -> (r:
    u32)
    ensures
        r == pixmap_height(*p),
;

/// Relies on tiny-skia: the pixel buffer holds exactly four bytes per pixel.
pub assume_specification[ resvg::tiny_skia::Pixmap::data ](p: &resvg::tiny_skia::Pixmap) -> (r:
    &[u8])
    ensures
        r@ == pixmap_bytes(*p),
        r@.len() == 4 * (pixmap_width(*p) as int) * (pixmap_height(*p) as int),
;

/// Relies on usvg's parser: builds a vector tree from markup text, or reports
/// a parse error. What tree comes back also depends on the options (fonts,
/// resource loaders), so nothing more is claimed of it.
pub assume_specification[ resvg::usvg::Tree::from_str ](
    text: &str,
    opt: &resvg::usvg::Options,
) -> Result<resvg::usvg::Tree, resvg::usvg::Error>;

/// Relies on resvg's renderer: draws the tree onto the pixmap's pixels,
/// translated by `(x, y)`; the pixmap keeps its dimensions.
#[verifier::external_body]
pub fn render_tree_onto(
    tree: &resvg::usvg::Tree,
    x: i64,
    y: i64,
    pixmap: &mut resvg::tiny_skia::Pixmap,
)
    ensures
        pixmap_width(*final(pixmap)) == pixmap_width(*old(pixmap)),
        pixmap_height(*final(pixmap)) == pixmap_height(*old(pixmap)),
{
    resvg::render(
        tree,
        resvg::tiny_skia::Transform::from_translate(x as _, y as _),
        &mut pixmap.as_mut(),
    );
}

} // verus!
