//! Rasterization: parsing the substituted vector document and rendering it
//! to PNG bytes through the resvg rendering stack.

use vstd::prelude::*;

verus! {

/// A failure of the rasterization stage.
#[derive(Clone, Copy, PartialEq, Eq, Structural, Debug)]
pub enum RasterError {
    /// The document is not well-formed vector markup.
    Parse,
    /// No raster buffer of the declared size could be made.
    Allocation,
    /// The raster buffer could not be encoded as PNG.
    Encode,
}

#[verifier::external_type_specification]
#[verifier::external_body]
pub struct ExSvgTree(usvg::Tree);

#[verifier::external_type_specification]
#[verifier::external_body]
pub struct ExPixmap(tiny_skia::Pixmap);

/// Whether the rendering stack accepts a document as well-formed vector
/// markup: parsing runs with default options, so acceptance is a function
/// of the text alone.
pub uninterp spec fn svg_parses(doc: Seq<char>) -> bool;

/// Whether a raster buffer of the given size can be made: both dimensions
/// nonzero, a row no longer than the renderer's 31-bit row limit, and the
/// whole four-bytes-per-pixel buffer addressable.
pub open spec fn pixmap_fits(width: u32, height: u32) -> bool {
    &&& 1 <= width
    &&& 1 <= height
    &&& 4 * (width as int) <= i32::MAX
    &&& 4 * (width as int) * (height as int) <= usize::MAX
}

/// The eight-byte PNG file signature at the head of a byte sequence.
pub open spec fn is_png_prefix(b: Seq<u8>) -> bool {
    b.len() >= 8 && b[0] == 137u8 && b[1] == 80u8 && b[2] == 78u8 && b[3] == 71u8 && b[4] == 13u8
        && b[5] == 10u8 && b[6] == 26u8 && b[7] == 10u8
}

/// Relies on usvg::Tree::from_str with default options: whether the text
/// parses depends on the text alone.
#[verifier::external_body]
fn parse_svg(doc: &str) -> (r: Option<usvg::Tree>)
    ensures
        r is Some <==> svg_parses(doc@),
{
    usvg::Tree::from_str(doc, &usvg::Options::default()).ok()
}

/// Relies on usvg::Tree::size and Size::to_int_size: the tree's image size,
/// rounded to integers with each dimension clamped to at least 1. The size
/// is no function of the document text alone — resolving it may read image
/// resources from disk — so nothing more is stated of it.
#[verifier::external_body]
fn tree_size(tree: &usvg::Tree) -> (r: (u32, u32))
    ensures
        r.0 >= 1 && r.1 >= 1,
{
    let size = tree.size().to_int_size();
    (size.width(), size.height())
}

/// Relies on tiny_skia::Pixmap::new: it returns a buffer exactly when both
/// dimensions are nonzero and its checked size arithmetic fits, a function
/// of width and height alone (running out of memory aborts, it does not
/// return).
#[verifier::external_body]
fn new_pixmap(width: u32, height: u32) -> (r: Option<tiny_skia::Pixmap>)
    ensures
        r is Some <==> pixmap_fits(width, height),
{
    tiny_skia::Pixmap::new(width, height)
}

/// Relies on resvg::render: draws the tree into the pixmap at the identity
/// transform, with the renderer's default anti-aliasing.
#[verifier::external_body]
fn render_tree(tree: &usvg::Tree, pixmap: &mut tiny_skia::Pixmap) {
    resvg::render(tree, tiny_skia::Transform::default(), &mut pixmap.as_mut());
}

/// Relies on tiny_skia::Pixmap::encode_png: encoding a pixmap (nonzero
/// size, exact RGBA8 buffer, by that type's construction) into a byte
/// vector has no failing path, and a PNG data stream opens with the
/// eight-byte PNG signature.
#[verifier::external_body]
fn encode_png(pixmap: &tiny_skia::Pixmap) -> (r: Option<Vec<u8>>)
    ensures
        r is Some,
        r is Some ==> is_png_prefix(r->Some_0@),
{
    pixmap.encode_png().ok()
}

/// Parses the document as vector markup, renders it at its declared
/// intrinsic size at 1:1 scale, and encodes the pixels losslessly as PNG.
/// Fails with `Parse` exactly when the text is not well-formed; a document
/// that parses yields the PNG bytes unless no raster buffer of its size
/// can be made, which gives `Allocation`. The size itself is not a
/// function of the text (resolving it may read image resources), so which
/// of the two outcomes a parsed document gets is not stated. `Encode` is a
/// defensive mapping of the encoder's error type; no reachable path
/// produces it.
pub fn rasterize(doc: &str) -> (r: Result<Vec<u8>, RasterError>)
    ensures
        (r matches Err(e) && e == RasterError::Parse) <==> !svg_parses(doc@),
        svg_parses(doc@) ==> (r is Ok || r == Err::<Vec<u8>, RasterError>(
            RasterError::Allocation,
        )),
        r is Ok ==> is_png_prefix(r->Ok_0@),
{
    match parse_svg(doc) {
        None => Err(RasterError::Parse),
        Some(tree) => {
            let (width, height) = tree_size(&tree);
            match new_pixmap(width, height) {
                None => Err(RasterError::Allocation),
                Some(mut pixmap) => {
                    render_tree(&tree, &mut pixmap);
                    match encode_png(&pixmap) {
                        None => Err(RasterError::Encode),
                        Some(bytes) => Ok(bytes),
                    }
                },
            }
        },
    }
}

} // verus!
