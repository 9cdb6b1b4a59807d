//! RGBA pictures of the `image` crate.

use vstd::prelude::*;

verus! {

/// A picture of the `image` crate: an `image::RgbaImage`.
#[verifier::external_body]
pub struct Picture {
    inner: image::RgbaImage,
}

/// One pixel: red, green, blue and alpha.
pub type Channels = (u8, u8, u8, u8);

/// The pixels of a picture by column and row; the domain is the picture's
/// rectangle.
pub uninterp spec fn pixels_of(picture: Picture) -> Map<(int, int), Channels>;

/// The width and height of a picture.
pub uninterp spec fn size_of_picture(picture: Picture) -> (u32, u32);

/// Whether `p`, a column and a row, lies in a `width` by `height` rectangle.
pub open spec fn in_rect(width: u32, height: u32, p: (int, int)) -> bool {
    0 <= p.0 < width && 0 <= p.1 < height
}

/// The pixels of a `width` by `height` picture whose channel bytes stand in
/// `bytes`, row by row from the top.
pub open spec fn unpacked(width: u32, height: u32, bytes: Seq<u8>) -> Map<(int, int), Channels> {
    Map::new(
        |p: (int, int)| in_rect(width, height, p),
        |p: (int, int)|
            {
                let at = 4 * (p.1 * width + p.0);
                (bytes[at], bytes[at + 1], bytes[at + 2], bytes[at + 3])
            },
    )
}

/// `image::RgbaImage::new`: a picture of the given size with every channel
/// zero. It panics where the bytes of a row, or of the picture, overflow the
/// address range.
#[verifier::external_body]
pub(crate) fn blank(width: u32, height: u32) -> (r: Picture)
    requires
        4 * width <= usize::MAX,
        4 * width * height <= isize::MAX,
    ensures
        size_of_picture(r) == (width, height),
        pixels_of(r) == Map::new(
            |p: (int, int)| in_rect(width, height, p),
            |p: (int, int)| (0u8, 0u8, 0u8, 0u8),
        ),
{
    Picture { inner: image::RgbaImage::new(width, height) }
}

/// `image::RgbaImage::put_pixel`: sets the pixel in column `x` of row `y` and
/// no other, and keeps the size. It panics outside the picture.
#[verifier::external_body]
pub(crate) fn put_pixel(picture: &mut Picture, x: u32, y: u32, r: u8, g: u8, b: u8, a: u8)
    requires
        x < size_of_picture(*old(picture)).0,
        y < size_of_picture(*old(picture)).1,
    ensures
        size_of_picture(*final(picture)) == size_of_picture(*old(picture)),
        pixels_of(*final(picture)) == pixels_of(*old(picture)).insert(
            (x as int, y as int),
            (r, g, b, a),
        ),
{
    picture.inner.put_pixel(x, y, image::Rgba([r, g, b, a]))
}

/// `image::RgbaImage::from_raw`: the picture whose channel bytes stand in
/// `bytes`, row by row; nothing where there are fewer bytes than the picture
/// takes, or where the bytes of a row overflow the address range.
#[verifier::external_body]
pub(crate) fn from_raw(width: u32, height: u32, bytes: Vec<u8>) -> (r: Option<Picture>)
    ensures
        r is Some <==> (4 * width <= usize::MAX && 4 * width * height <= bytes@.len()),
        r is Some ==> size_of_picture(r->0) == (width, height),
        r is Some ==> pixels_of(r->0) == unpacked(width, height, bytes@),
{
    match image::RgbaImage::from_raw(width, height, bytes) {
        Some(inner) => Some(Picture { inner }),
        None => None,
    }
}

/// `image::RgbaImage::dimensions`: the width and height.
#[verifier::external_body]
fn dimensions(picture: &Picture) -> (r: (u32, u32))
    ensures
        r == size_of_picture(*picture),
{
    picture.inner.dimensions()
}

/// `image::RgbaImage::into_raw`: the channel bytes, row by row. Bytes past the
/// last pixel, which a picture made from a larger buffer keeps, are not spoken
/// of.
#[verifier::external_body]
fn into_raw(picture: Picture) -> (r: Vec<u8>)
    ensures
        4 * size_of_picture(picture).0 * size_of_picture(picture).1 <= r@.len(),
        unpacked(size_of_picture(picture).0, size_of_picture(picture).1, r@) == pixels_of(picture),
{
    picture.inner.into_raw()
}

impl Picture {
    /// Width, height and the channel bytes of the rows from the top, ready to
    /// be written to a file.
    pub fn into_parts(self) -> (r: (u32, u32, Vec<u8>))
        ensures
            (r.0, r.1) == size_of_picture(self),
            4 * r.0 * r.1 <= r.2@.len(),
            unpacked(r.0, r.1, r.2@) == pixels_of(self),
    {
        let size: (u32, u32) = dimensions(&self);
        let bytes: Vec<u8> = into_raw(self);
        (size.0, size.1, bytes)
    }
}

} // verus!
