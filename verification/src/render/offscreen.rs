//! Off-screen capture: the queue of requests, the layout of the copied texture,
//! and the outcome of each request.
//!
//! The renderer copies its target texture into a buffer whose rows are padded
//! to a fixed alignment, with the channels of a pixel in the order blue, green,
//! red, alpha. A capture strips the padding and puts red first.

use crate::picture::{from_raw, in_rect, pixels_of, size_of_picture, unpacked, Channels, Picture};
use std::collections::VecDeque;
use vstd::prelude::*;
use vstd::string::*;

verus! {

/// Bytes of one pixel.
pub const BYTES_PER_PIXEL: u32 = 4;

/// What the bytes of a row in a copied texture are rounded up to.
pub const ROW_ALIGNMENT: u32 = 256;

/// Bytes of one row of a copied texture: four per pixel, rounded up to a
/// multiple of [`ROW_ALIGNMENT`].
pub open spec fn row_stride(width: int) -> int {
    (4 * width + 255) / 256 * 256
}

/// Bytes from one row of a copied texture to the next.
pub fn padded_bytes_per_row(width: u32) -> (r: u32)
    requires
        row_stride(width as int) <= u32::MAX,
    ensures
        r as int == row_stride(width as int),
        r % 256 == 0,
        4 * width <= r < 4 * width + 256,
{
    let unpadded: u32 = width * BYTES_PER_PIXEL;
    let whole: u32 = unpadded / ROW_ALIGNMENT;
    if unpadded % ROW_ALIGNMENT == 0 {
        whole * ROW_ALIGNMENT
    } else {
        (whole + 1) * ROW_ALIGNMENT
    }
}

/// Bytes of a copied texture.
pub fn copy_buffer_size(width: u32, height: u32) -> (r: u64)
    requires
        row_stride(width as int) <= u32::MAX,
    ensures
        r as int == row_stride(width as int) * height,
{
    let padded: u32 = padded_bytes_per_row(width);
    proof {
        assert(0 <= padded * height <= 0xffff_ffff * 0xffff_ffff) by (nonlinear_arith)
            requires
                0 <= padded <= 0xffff_ffff,
                0 <= height <= 0xffff_ffff,
        ;
    }
    padded as u64 * height as u64
}

/// The pixel that a copied texture holds in column `x` of row `y`, red first.
pub open spec fn copied_pixel(data: Seq<u8>, width: u32, x: int, y: int) -> Channels {
    let at = y * row_stride(width as int) + 4 * x;
    (data[at + 2], data[at + 1], data[at], data[at + 3])
}

/// The pixels of a copied texture.
pub open spec fn copied_pixels(data: Seq<u8>, width: u32, height: u32) -> Map<(int, int), Channels> {
    Map::new(
        |p: (int, int)| in_rect(width, height, p),
        |p: (int, int)| copied_pixel(data, width, p.0, p.1),
    )
}

proof fn lemma_bounds(width: int, height: int, stride: int, x: int, y: int)
    requires
        0 <= x < width,
        0 <= y < height,
        4 * width <= stride,
    ensures
        0 <= y * stride,
        y * stride + 4 * x + 4 <= stride * height,
        0 <= 4 * (y * width + x),
        4 * (y * width + x) + 4 <= 4 * width * height,
{
    assert(0 <= y * stride && y * stride + stride <= stride * height) by (nonlinear_arith)
        requires
            0 <= y,
            y + 1 <= height,
            0 <= stride,
    ;
    assert(0 <= y * width && y * width + width <= width * height) by (nonlinear_arith)
        requires
            0 <= y,
            y + 1 <= height,
            0 <= width,
    ;
    assert(4 * width * height == 4 * (width * height)) by (nonlinear_arith);
}

/// The rows of a copied texture without their padding, red first.
pub fn unpad_rgba(data: &[u8], width: u32, height: u32) -> (r: Vec<u8>)
    requires
        row_stride(width as int) <= u32::MAX,
        4 * width * height <= u32::MAX,
        row_stride(width as int) * height <= data@.len(),
    ensures
        r@.len() == 4 * width * height,
        unpacked(width, height, r@) == copied_pixels(data@, width, height),
        forall|x: int, y: int|
            0 <= x < width && 0 <= y < height ==> #[trigger] unpacked(width, height, r@)[(x, y)] == ({
                let at = y * row_stride(width as int) + 4 * x;
                (data@[at + 2], data@[at + 1], data@[at], data@[at + 3])
            }),
{
    let len: usize = data.len();
    let padded: usize = padded_bytes_per_row(width) as usize;
    let mut out: Vec<u8> = Vec::new();
    let mut y: u32 = 0;
    while y < height
        invariant
            y <= height,
            len == data@.len(),
            padded == row_stride(width as int),
            4 * width <= padded,
            padded * height <= len,
            4 * width * height <= u32::MAX,
            out@.len() == 4 * (y * width),
            forall|p: (int, int)|
                in_rect(width, height, p) && p.1 < y ==> #[trigger] unpacked(width, height, out@)[p]
                    == copied_pixel(data@, width, p.0, p.1),
        decreases height - y,
    {
        proof {
            if width > 0 {
                lemma_bounds(width as int, height as int, padded as int, 0, y as int);
            } else {
                assert(y * padded <= padded * height) by (nonlinear_arith)
                    requires
                        0 <= y <= height,
                        0 <= padded,
                ;
            }
        }
        let row_start: usize = y as usize * padded;
        let mut x: u32 = 0;
        while x < width
            invariant
                y < height,
                x <= width,
                len == data@.len(),
                padded == row_stride(width as int),
                4 * width <= padded,
                padded * height <= len,
                4 * width * height <= u32::MAX,
                row_start == y * padded,
                out@.len() == 4 * (y * width + x),
                forall|p: (int, int)|
                    in_rect(width, height, p) && (p.1 < y || (p.1 == y && p.0 < x))
                        ==> #[trigger] unpacked(width, height, out@)[p] == copied_pixel(
                        data@,
                        width,
                        p.0,
                        p.1,
                    ),
            decreases width - x,
        {
            proof {
                lemma_bounds(width as int, height as int, padded as int, x as int, y as int);
            }
            let ghost before = out@;
            let off: usize = row_start + x as usize * 4;
            let b: u8 = data[off];
            let g: u8 = data[off + 1];
            let r: u8 = data[off + 2];
            let a: u8 = data[off + 3];
            out.push(r);
            out.push(g);
            out.push(b);
            out.push(a);
            proof {
                assert forall|p: (int, int)|
                    in_rect(width, height, p) && (p.1 < y || (p.1 == y && p.0 < x + 1)) implies #[trigger] unpacked(
                    width,
                    height,
                    out@,
                )[p] == copied_pixel(data@, width, p.0, p.1) by {
                    let at = 4 * (p.1 * width + p.0);
                    if p.1 < y || p.0 < x {
                        assert(unpacked(width, height, before)[p] == copied_pixel(data@, width, p.0, p.1));
                        if p.1 < y {
                            assert(p.1 * width + width <= y * width) by (nonlinear_arith)
                                requires
                                    p.1 + 1 <= y,
                                    0 <= width,
                            ;
                        }
                        assert(0 <= p.1 * width) by (nonlinear_arith)
                            requires
                                0 <= p.1,
                                0 <= width,
                        ;
                        assert(at + 3 < before.len());
                        assert(out@[at] == before[at]);
                        assert(out@[at + 1] == before[at + 1]);
                        assert(out@[at + 2] == before[at + 2]);
                        assert(out@[at + 3] == before[at + 3]);
                    } else {
                        assert(at == before.len());
                    }
                }
            }
            x += 1;
        }
        proof {
            assert((y + 1) * width == y * width + width) by (nonlinear_arith);
        }
        y += 1;
    }
    proof {
        assert(4 * (height * width) == 4 * width * height) by (nonlinear_arith);
        assert(unpacked(width, height, out@) =~= copied_pixels(data@, width, height));
    }
    out
}

/// The picture of a copied texture.
pub fn copied_picture(data: &[u8], width: u32, height: u32) -> (r: Option<Picture>)
    requires
        row_stride(width as int) <= u32::MAX,
        4 * width * height <= u32::MAX,
        row_stride(width as int) * height <= data@.len(),
    ensures
        r is Some,
        size_of_picture(r->0) == (width, height),
        pixels_of(r->0) == copied_pixels(data@, width, height),
{
    let rgba: Vec<u8> = unpad_rgba(data, width, height);
    from_raw(width, height, rgba)
}

/// A capture that was asked for: its number and the file it goes to.
#[derive(Debug)]
pub struct CaptureRequest {
    pub id: u64,
    pub path: String,
}

/// Captures that were asked for and not served yet, oldest first.
#[derive(Debug)]
pub struct CaptureQueue {
    pub pending: VecDeque<CaptureRequest>,
    pub next_id: u64,
}

impl Default for CaptureQueue {
    fn default() -> (r: Self)
        ensures
            r.pending@.len() == 0,
            r.next_id == 0,
    {
        CaptureQueue { pending: VecDeque::new(), next_id: 0 }
    }
}

impl CaptureQueue {
    /// The request to serve in this frame: the oldest, and one at most, since
    /// the target holds the pixels of one frame. Without a target nothing
    /// leaves the queue.
    pub fn next_request(&mut self, has_target: bool) -> (r: Option<CaptureRequest>)
        ensures
            final(self).next_id == old(self).next_id,
            !has_target || old(self).pending@.len() == 0 ==> r is None && final(self).pending@ == old(self).pending@,
            has_target && old(self).pending@.len() > 0 ==> r == Some(old(self).pending@[0])
                && final(self).pending@ == old(self).pending@.subrange(
                1,
                old(self).pending@.len() as int,
            ),
    {
        if !has_target {
            return None;
        }
        self.pending.pop_front()
    }
}

/// How serving a request went.
#[derive(Debug)]
pub enum CopyResult {
    /// The target's texture is not on the GPU yet.
    NotPrepared,
    /// The reply to the mapping request never came.
    ChannelClosed(String),
    /// The buffer could not be mapped.
    MapFailed(String),
    /// The pixels do not make a picture of the target's size.
    SizeMismatch,
    /// The file could not be written.
    SaveFailed(String),
    Saved,
}

/// What became of a request.
#[derive(Debug)]
pub struct CaptureOutcome {
    pub id: u64,
    pub path: String,
    pub ok: bool,
    pub message: Option<String>,
}

/// The message that goes with a result; a saved capture has none.
pub open spec fn copy_message(result: CopyResult) -> Option<Seq<char>> {
    match result {
        CopyResult::NotPrepared => Some("GPU image not yet prepared"@),
        CopyResult::ChannelClosed(e) => Some("map channel closed: "@ + e@),
        CopyResult::MapFailed(e) => Some("map_async failed: "@ + e@),
        CopyResult::SizeMismatch => Some("RgbaImage::from_raw size mismatch"@),
        CopyResult::SaveFailed(e) => Some(e@),
        CopyResult::Saved => None,
    }
}

/// The outcome of a request: it is identified by the request's number and
/// path, and is a success exactly where the picture was saved.
pub fn outcome_of(request: CaptureRequest, result: CopyResult) -> (r: CaptureOutcome)
    ensures
        r.id == request.id,
        r.path == request.path,
        r.ok == (result is Saved),
        match copy_message(result) {
            Some(text) => r.message is Some && r.message->0@ == text,
            None => r.message is None,
        },
        r.message is None <==> result is Saved,
        result is NotPrepared ==> r.message->0@ == "GPU image not yet prepared"@,
        result matches CopyResult::ChannelClosed(e) ==> r.message->0@ == "map channel closed: "@ + e@,
        result matches CopyResult::MapFailed(e) ==> r.message->0@ == "map_async failed: "@ + e@,
        result is SizeMismatch ==> r.message->0@ == "RgbaImage::from_raw size mismatch"@,
        result matches CopyResult::SaveFailed(e) ==> r.message->0@ == e@,
{
    let ok: bool = matches!(result, CopyResult::Saved);
    let message: Option<String> = match result {
        CopyResult::NotPrepared => Some(String::from_str("GPU image not yet prepared")),
        CopyResult::ChannelClosed(e) => Some(
            String::from_str("map channel closed: ").concat(e.as_str()),
        ),
        CopyResult::MapFailed(e) => Some(String::from_str("map_async failed: ").concat(e.as_str())),
        CopyResult::SizeMismatch => Some(String::from_str("RgbaImage::from_raw size mismatch")),
        CopyResult::SaveFailed(e) => Some(e),
        CopyResult::Saved => None,
    };
    CaptureOutcome { id: request.id, path: request.path, ok, message }
}

/// A row of a copied texture takes four bytes per pixel and as few more as make
/// it a multiple of 256.
pub proof fn a_row_is_padded_to_its_alignment(width: int)
    requires
        0 <= width,
    ensures
        row_stride(width) % 256 == 0,
        4 * width <= row_stride(width) < 4 * width + 256,
{
}

/// A capture holds a pixel for every column and row, and no other: the four bytes
/// that stand for it in its row of the copied texture, red first, whatever the
/// padding between the rows holds.
pub proof fn a_capture_keeps_every_pixel(data: Seq<u8>, width: u32, height: u32, stride: int, x: int, y: int)
    requires
        stride % 256 == 0,
        4 * width <= stride < 4 * width + 256,
    ensures
        copied_pixels(data, width, height).dom().contains((x, y)) <==> 0 <= x < width && 0 <= y < height,
        0 <= x < width && 0 <= y < height ==> copied_pixels(data, width, height)[(x, y)] == (
            data[y * stride + 4 * x + 2],
            data[y * stride + 4 * x + 1],
            data[y * stride + 4 * x],
            data[y * stride + 4 * x + 3],
        ),
{
    a_row_is_padded_to_its_alignment(width as int);
    assert(stride == row_stride(width as int));
}

} // verus!
