//! Decoding of X window dumps (XWD, file version 7) into RGBA pictures.
//!
//! A dump is a header of big-endian 32-bit words, a colour map of 12-byte
//! entries, and the rows of the picture.

use crate::picture::{blank, in_rect, pixels_of, put_pixel, size_of_picture, Channels, Picture};
use crate::text::{append_decimal, decimal};
use vstd::prelude::*;
use vstd::std_specs::bits::u32_trailing_zeros;
use vstd::string::*;

verus! {

/// The 32-bit big-endian number at byte `off`.
pub open spec fn be32(b: Seq<u8>, off: int) -> int {
    b[off] * 0x100_0000 + b[off + 1] * 0x1_0000 + b[off + 2] * 0x100 + b[off + 3]
}

/// Why a dump was not decoded.
#[derive(Clone, Copy, Debug, PartialEq, Eq, Structural)]
pub enum XwdError {
    /// Fewer bytes than the header takes.
    TooShort { len: usize },
    FileVersion { version: u32 },
    PixmapFormat { format: u32 },
    PixmapDepth { depth: u32 },
    BitsPerPixel { bits: u32 },
    /// The dump ends before the pixels begin.
    Truncated,
    /// Fewer pixel bytes than the rows take.
    PixelsShort { have: usize, need: u64, width: u32, height: u32, stride: u32, bits: u32 },
    /// A colour mask without a set bit.
    ZeroMask,
}

/// The header words that matter for decoding.
#[derive(Clone, Copy, Debug)]
pub struct XwdHeader {
    pub header_size: u32,
    pub file_version: u32,
    pub pixmap_format: u32,
    pub pixmap_depth: u32,
    pub width: u32,
    pub height: u32,
    /// 0 = least significant byte first; anything else = most significant
    /// byte first.
    pub byte_order: u32,
    pub bits_per_pixel: u32,
    pub bytes_per_line: u32,
    pub red_mask: u32,
    pub green_mask: u32,
    pub blue_mask: u32,
    pub ncolors: u32,
}

/// The header that the first hundred bytes spell.
pub open spec fn header_of(b: Seq<u8>) -> XwdHeader {
    XwdHeader {
        header_size: be32(b, 0) as u32,
        file_version: be32(b, 4) as u32,
        pixmap_format: be32(b, 8) as u32,
        pixmap_depth: be32(b, 12) as u32,
        width: be32(b, 16) as u32,
        height: be32(b, 20) as u32,
        byte_order: be32(b, 28) as u32,
        bits_per_pixel: be32(b, 44) as u32,
        bytes_per_line: be32(b, 48) as u32,
        red_mask: be32(b, 56) as u32,
        green_mask: be32(b, 60) as u32,
        blue_mask: be32(b, 64) as u32,
        ncolors: be32(b, 76) as u32,
    }
}

impl XwdHeader {
    /// Where the pixels begin: after the header and the colour map.
    pub open spec fn pixel_start(self) -> int {
        self.header_size + 12 * self.ncolors
    }

    /// Bytes of one pixel.
    pub open spec fn pixel_bytes(self) -> int {
        self.bits_per_pixel as int / 8
    }

    /// Bytes of all rows.
    pub open spec fn row_bytes(self) -> int {
        self.bytes_per_line * self.height
    }
}

/// The first thing wrong with a dump, if anything is.
pub open spec fn xwd_fault(b: Seq<u8>) -> Option<XwdError> {
    let h = header_of(b);
    if b.len() < 100 {
        Some(XwdError::TooShort { len: b.len() as usize })
    } else if h.file_version != 7 {
        Some(XwdError::FileVersion { version: h.file_version })
    } else if h.pixmap_format != 2 {
        Some(XwdError::PixmapFormat { format: h.pixmap_format })
    } else if h.pixmap_depth != 24 && h.pixmap_depth != 32 {
        Some(XwdError::PixmapDepth { depth: h.pixmap_depth })
    } else if h.bits_per_pixel != 24 && h.bits_per_pixel != 32 {
        Some(XwdError::BitsPerPixel { bits: h.bits_per_pixel })
    } else if h.pixel_start() > b.len() {
        Some(XwdError::Truncated)
    } else if b.len() - h.pixel_start() < h.row_bytes() {
        Some(
            XwdError::PixelsShort {
                have: (b.len() - h.pixel_start()) as usize,
                need: h.row_bytes() as u64,
                width: h.width,
                height: h.height,
                stride: h.bytes_per_line,
                bits: h.bits_per_pixel,
            },
        )
    } else if h.red_mask == 0 || h.green_mask == 0 || h.blue_mask == 0 {
        Some(XwdError::ZeroMask)
    } else {
        None
    }
}

/// The packed value of the pixel whose bytes begin at `at`.
pub open spec fn pixel_value(b: Seq<u8>, h: XwdHeader, at: int) -> u32 {
    if h.pixel_bytes() == 4 {
        if h.byte_order == 0 {
            (b[at] + b[at + 1] * 0x100 + b[at + 2] * 0x1_0000 + b[at + 3] * 0x100_0000) as u32
        } else {
            be32(b, at) as u32
        }
    } else if h.byte_order == 0 {
        (b[at] + b[at + 1] * 0x100 + b[at + 2] * 0x1_0000) as u32
    } else {
        (b[at] * 0x1_0000 + b[at + 1] * 0x100 + b[at + 2]) as u32
    }
}

/// The channel that `mask` selects, moved down to bit 0.
pub open spec fn channel(value: u32, mask: u32) -> u8 {
    ((value & mask) >> u32_trailing_zeros(mask)) as u8
}

/// The opaque pixel that the dump holds in column `x` of row `y`.
pub open spec fn xwd_pixel(b: Seq<u8>, x: int, y: int) -> Channels {
    let h = header_of(b);
    let v = pixel_value(b, h, h.pixel_start() + y * h.bytes_per_line + x * h.pixel_bytes());
    (channel(v, h.red_mask), channel(v, h.green_mask), channel(v, h.blue_mask), 255u8)
}

/// The pixels of a dump.
pub open spec fn xwd_pixels(b: Seq<u8>) -> Map<(int, int), Channels> {
    Map::new(
        |p: (int, int)| in_rect(header_of(b).width, header_of(b).height, p),
        |p: (int, int)| xwd_pixel(b, p.0, p.1),
    )
}

/// Every pixel that the header announces lies inside the dump, and the picture
/// and each of its rows fit in memory's address range. A dump whose rows are shorter than its
/// width passes the header checks and still fails this.
pub open spec fn xwd_rows_fit(b: Seq<u8>) -> bool {
    let h = header_of(b);
    &&& 4 * h.width <= usize::MAX
    &&& 4 * h.width * h.height <= isize::MAX
    &&& h.width == 0 || h.height == 0 || h.pixel_start() + (h.height - 1) * h.bytes_per_line + h.width
        * h.pixel_bytes() <= b.len()
}

fn read_be32(b: &[u8], off: usize) -> (r: u32)
    requires
        off + 4 <= b@.len(),
    ensures
        r as int == be32(b@, off as int),
        r as int == ((b@[off as int] * 256 + b@[off + 1]) * 256 + b@[off + 2]) * 256 + b@[off + 3],
{
    (b[off] as u32) * 0x100_0000 + (b[off + 1] as u32) * 0x1_0000 + (b[off + 2] as u32) * 0x100
        + (b[off + 3] as u32)
}

fn read_header(b: &[u8]) -> (h: XwdHeader)
    requires
        b@.len() >= 100,
    ensures
        h == header_of(b@),
        h.header_size == be32(b@, 0),
        h.file_version == be32(b@, 4),
        h.pixmap_format == be32(b@, 8),
        h.pixmap_depth == be32(b@, 12),
        h.width == be32(b@, 16),
        h.height == be32(b@, 20),
        h.byte_order == be32(b@, 28),
        h.bits_per_pixel == be32(b@, 44),
        h.bytes_per_line == be32(b@, 48),
        h.red_mask == be32(b@, 56),
        h.green_mask == be32(b@, 60),
        h.blue_mask == be32(b@, 64),
        h.ncolors == be32(b@, 76),
{
    XwdHeader {
        header_size: read_be32(b, 0),
        file_version: read_be32(b, 4),
        pixmap_format: read_be32(b, 8),
        pixmap_depth: read_be32(b, 12),
        width: read_be32(b, 16),
        height: read_be32(b, 20),
        byte_order: read_be32(b, 28),
        bits_per_pixel: read_be32(b, 44),
        bytes_per_line: read_be32(b, 48),
        red_mask: read_be32(b, 56),
        green_mask: read_be32(b, 60),
        blue_mask: read_be32(b, 64),
        ncolors: read_be32(b, 76),
    }
}

impl XwdError {
    /// The error in words.
    pub open spec fn text(self) -> Seq<char> {
        match self {
            XwdError::TooShort { len } => "xwd buffer too short: "@ + decimal(len as nat) + " bytes"@,
            XwdError::FileVersion { version } => "unsupported xwd file_version "@ + decimal(version as nat),
            XwdError::PixmapFormat { format } => "unsupported pixmap_format "@ + decimal(format as nat)
                + " (need 2=ZPixmap)"@,
            XwdError::PixmapDepth { depth } => "unsupported pixmap_depth "@ + decimal(depth as nat)
                + " (need 24 or 32)"@,
            XwdError::BitsPerPixel { bits } => "unsupported bits_per_pixel "@ + decimal(bits as nat)
                + " (need 24 or 32)"@,
            XwdError::Truncated => "xwd buffer truncated before pixel data"@,
            XwdError::PixelsShort { have, need, width, height, stride, bits } => {
                "xwd pixel data short: have "@ + decimal(have as nat) + ", need "@ + decimal(need as nat)
                    + " ("@ + decimal(width as nat) + "x"@ + decimal(height as nat) + " stride "@ + decimal(
                    stride as nat,
                ) + " bpp "@ + decimal(bits as nat) + ")"@
            },
            XwdError::ZeroMask => "zero colour mask"@,
        }
    }

    /// The error in words.
    pub fn message(&self) -> (r: String)
        ensures
            r@ == self.text(),
            self is ZeroMask ==> r@ == "zero colour mask"@,
            self matches XwdError::TooShort { len } ==> r@ == "xwd buffer too short: "@ + decimal(len as nat)
                + " bytes"@,
            self matches XwdError::FileVersion { version } ==> r@ == "unsupported xwd file_version "@ + decimal(
                version as nat,
            ),
    {
        match *self {
            XwdError::TooShort { len } => {
                let mut s: String = String::from_str("xwd buffer too short: ");
                append_decimal(&mut s, len as u64);
                s.append(" bytes");
                s
            },
            XwdError::FileVersion { version } => {
                let mut s: String = String::from_str("unsupported xwd file_version ");
                append_decimal(&mut s, version as u64);
                s
            },
            XwdError::PixmapFormat { format } => {
                let mut s: String = String::from_str("unsupported pixmap_format ");
                append_decimal(&mut s, format as u64);
                s.append(" (need 2=ZPixmap)");
                s
            },
            XwdError::PixmapDepth { depth } => {
                let mut s: String = String::from_str("unsupported pixmap_depth ");
                append_decimal(&mut s, depth as u64);
                s.append(" (need 24 or 32)");
                s
            },
            XwdError::BitsPerPixel { bits } => {
                let mut s: String = String::from_str("unsupported bits_per_pixel ");
                append_decimal(&mut s, bits as u64);
                s.append(" (need 24 or 32)");
                s
            },
            XwdError::Truncated => String::from_str("xwd buffer truncated before pixel data"),
            XwdError::PixelsShort { have, need, width, height, stride, bits } => {
                let mut s: String = String::from_str("xwd pixel data short: have ");
                append_decimal(&mut s, have as u64);
                s.append(", need ");
                append_decimal(&mut s, need);
                s.append(" (");
                append_decimal(&mut s, width as u64);
                s.append("x");
                append_decimal(&mut s, height as u64);
                s.append(" stride ");
                append_decimal(&mut s, stride as u64);
                s.append(" bpp ");
                append_decimal(&mut s, bits as u64);
                s.append(")");
                s
            },
            XwdError::ZeroMask => String::from_str("zero colour mask"),
        }
    }
}

/// The lowest set bit of a colour mask.
pub fn mask_to_shift(mask: u32) -> (r: Result<u32, XwdError>)
    ensures
        r == (if mask == 0 {
            Err::<u32, XwdError>(XwdError::ZeroMask)
        } else {
            Ok(u32_trailing_zeros(mask))
        }),
{
    if mask == 0 {
        return Err(XwdError::ZeroMask);
    }
    Ok(mask.trailing_zeros())
}

proof fn lemma_product(a: u32, b: u32)
    ensures
        0 <= a * b <= 0xffff_ffff * 0xffff_ffff,
{
    assert(0 <= a * b <= 0xffff_ffff * 0xffff_ffff) by (nonlinear_arith)
        requires
            0 <= a <= 0xffff_ffff,
            0 <= b <= 0xffff_ffff,
    ;
}

/// The first thing wrong with a dump's header or size, or the header.
fn check_header(b: &[u8]) -> (r: Result<XwdHeader, XwdError>)
    ensures
        match r {
            Ok(h) => h == header_of(b@) && xwd_fault(b@) is None,
            Err(e) => xwd_fault(b@) == Some(e),
        },
{
    if b.len() < 100 {
        return Err(XwdError::TooShort { len: b.len() });
    }
    let h: XwdHeader = read_header(b);
    if h.file_version != 7 {
        return Err(XwdError::FileVersion { version: h.file_version });
    }
    if h.pixmap_format != 2 {
        return Err(XwdError::PixmapFormat { format: h.pixmap_format });
    }
    if h.pixmap_depth != 24 && h.pixmap_depth != 32 {
        return Err(XwdError::PixmapDepth { depth: h.pixmap_depth });
    }
    if h.bits_per_pixel != 24 && h.bits_per_pixel != 32 {
        return Err(XwdError::BitsPerPixel { bits: h.bits_per_pixel });
    }
    let pixel_start: u64 = h.header_size as u64 + 12 * (h.ncolors as u64);
    let len: u64 = b.len() as u64;
    if pixel_start > len {
        return Err(XwdError::Truncated);
    }
    proof {
        lemma_product(h.bytes_per_line, h.height);
    }
    let have: u64 = len - pixel_start;
    let need: u64 = h.bytes_per_line as u64 * h.height as u64;
    if have < need {
        return Err(
            XwdError::PixelsShort {
                have: have as usize,
                need,
                width: h.width,
                height: h.height,
                stride: h.bytes_per_line,
                bits: h.bits_per_pixel,
            },
        );
    }
    if h.red_mask == 0 || h.green_mask == 0 || h.blue_mask == 0 {
        return Err(XwdError::ZeroMask);
    }
    Ok(h)
}

/// Whether [`parse_xwd_to_rgba`] may be called: the dump is refused by a header
/// check, or all its pixels lie inside it.
pub fn xwd_is_decodable(b: &[u8]) -> (r: bool)
    ensures
        r == (xwd_fault(b@) is None ==> xwd_rows_fit(b@)),
{
    match check_header(b) {
        Err(_) => true,
        Ok(h) => {
            proof {
                lemma_product(h.width, h.height);
                lemma_product(h.bytes_per_line, h.height);
            }
            let area: u128 = 4 * (h.width as u128 * h.height as u128);
            proof {
                assert(area == 4 * h.width * h.height) by (nonlinear_arith)
                    requires
                        area == 4 * (h.width * h.height),
                ;
            }
            if 4 * (h.width as u128) > usize::MAX as u128 || area > isize::MAX as u128 {
                return false;
            }
            if h.width == 0 || h.height == 0 {
                return true;
            }
            let start: u128 = h.header_size as u128 + 12 * (h.ncolors as u128);
            let bpp: u128 = (h.bits_per_pixel / 8) as u128;
            proof {
                assert(0 <= (h.height - 1) * h.bytes_per_line <= h.bytes_per_line * h.height)
                    by (nonlinear_arith)
                    requires
                        h.height >= 1,
                        h.bytes_per_line >= 0,
                ;
                assert(0 <= h.width * bpp <= 0xffff_ffff * 4) by (nonlinear_arith)
                    requires
                        0 <= h.width <= 0xffff_ffff,
                        0 <= bpp <= 4,
                ;
            }
            let end: u128 = start + (h.height - 1) as u128 * h.bytes_per_line as u128 + h.width as u128
                * bpp;
            end <= b.len() as u128
        },
    }
}

fn read_pixel(b: &[u8], h: &XwdHeader, at: usize) -> (r: u32)
    requires
        h.bits_per_pixel == 24 || h.bits_per_pixel == 32,
        at + h.pixel_bytes() <= b@.len(),
    ensures
        r == pixel_value(b@, *h, at as int),
{
    if h.bits_per_pixel == 32 {
        if h.byte_order == 0 {
            (b[at] as u32) + (b[at + 1] as u32) * 0x100 + (b[at + 2] as u32) * 0x1_0000 + (b[at
                + 3] as u32) * 0x100_0000
        } else {
            read_be32(b, at)
        }
    } else if h.byte_order == 0 {
        (b[at] as u32) + (b[at + 1] as u32) * 0x100 + (b[at + 2] as u32) * 0x1_0000
    } else {
        (b[at] as u32) * 0x1_0000 + (b[at + 1] as u32) * 0x100 + (b[at + 2] as u32)
    }
}

fn pick(value: u32, mask: u32, shift: u32) -> (r: u8)
    requires
        mask != 0,
        shift == u32_trailing_zeros(mask),
    ensures
        r == channel(value, mask),
{
    broadcast use vstd::std_specs::bits::group_bits_axioms;

    ((value & mask) >> shift) as u8
}

proof fn lemma_pixel_inside(h: XwdHeader, len: int, x: int, y: int)
    requires
        0 <= x < h.width,
        0 <= y < h.height,
        h.pixel_bytes() >= 0,
        h.pixel_start() + (h.height - 1) * h.bytes_per_line + h.width * h.pixel_bytes() <= len,
    ensures
        0 <= y * h.bytes_per_line <= (h.height - 1) * h.bytes_per_line,
        0 <= x * h.pixel_bytes(),
        h.pixel_start() + y * h.bytes_per_line + x * h.pixel_bytes() + h.pixel_bytes() <= len,
{
    let w = h.width as int;
    let p = h.pixel_bytes();
    let s = h.bytes_per_line as int;
    let n = h.height as int;
    assert(0 <= y * s <= (n - 1) * s) by (nonlinear_arith)
        requires
            0 <= y <= n - 1,
            0 <= s,
    ;
    assert(0 <= x * p && x * p + p <= w * p) by (nonlinear_arith)
        requires
            0 <= x,
            x + 1 <= w,
            0 <= p,
    ;
}

/// Decodes a dump: ZPixmap, 24 or 32 bits per pixel in either byte order,
/// channels picked by the header's masks, fully opaque.
pub fn parse_xwd_to_rgba(b: &[u8]) -> (r: Result<Picture, XwdError>)
    requires
        xwd_fault(b@) is None ==> xwd_rows_fit(b@),
    ensures
        match r {
            Ok(img) => xwd_fault(b@) is None && pixels_of(img) == xwd_pixels(b@) && size_of_picture(img)
                == (header_of(b@).width, header_of(b@).height),
            Err(e) => xwd_fault(b@) == Some(e),
        },
{
    let h: XwdHeader = match check_header(b) {
        Ok(h) => h,
        Err(e) => return Err(e),
    };
    let r_shift: u32 = match mask_to_shift(h.red_mask) {
        Ok(s) => s,
        Err(e) => return Err(e),
    };
    let g_shift: u32 = match mask_to_shift(h.green_mask) {
        Ok(s) => s,
        Err(e) => return Err(e),
    };
    let b_shift: u32 = match mask_to_shift(h.blue_mask) {
        Ok(s) => s,
        Err(e) => return Err(e),
    };
    let len: usize = b.len();
    let pixel_start: usize = (h.header_size as u64 + 12 * (h.ncolors as u64)) as usize;
    let bpp: usize = (h.bits_per_pixel / 8) as usize;
    let mut out: Picture = blank(h.width, h.height);
    let mut y: u32 = 0;
    while y < h.height
        invariant
            h == header_of(b@),
            len == b@.len(),
            xwd_fault(b@) is None,
            xwd_rows_fit(b@),
            y <= h.height,
            pixel_start == h.pixel_start(),
            bpp == h.pixel_bytes(),
            h.red_mask != 0,
            h.green_mask != 0,
            h.blue_mask != 0,
            r_shift == u32_trailing_zeros(h.red_mask),
            g_shift == u32_trailing_zeros(h.green_mask),
            b_shift == u32_trailing_zeros(h.blue_mask),
            size_of_picture(out) == (h.width, h.height),
            forall|p: (int, int)| #[trigger]
                pixels_of(out).dom().contains(p) <==> in_rect(h.width, h.height, p),
            forall|p: (int, int)|
                in_rect(h.width, h.height, p) && p.1 < y ==> #[trigger] pixels_of(out)[p] == xwd_pixel(
                    b@,
                    p.0,
                    p.1,
                ),
        decreases h.height - y,
    {
        let mut x: u32 = 0;
        while x < h.width
            invariant
                h == header_of(b@),
                len == b@.len(),
                xwd_fault(b@) is None,
                xwd_rows_fit(b@),
                y < h.height,
                x <= h.width,
                pixel_start == h.pixel_start(),
                bpp == h.pixel_bytes(),
                h.red_mask != 0,
                h.green_mask != 0,
                h.blue_mask != 0,
                r_shift == u32_trailing_zeros(h.red_mask),
                g_shift == u32_trailing_zeros(h.green_mask),
                b_shift == u32_trailing_zeros(h.blue_mask),
                size_of_picture(out) == (h.width, h.height),
                forall|p: (int, int)| #[trigger]
                    pixels_of(out).dom().contains(p) <==> in_rect(h.width, h.height, p),
                forall|p: (int, int)|
                    in_rect(h.width, h.height, p) && (p.1 < y || (p.1 == y && p.0 < x))
                        ==> #[trigger] pixels_of(out)[p] == xwd_pixel(b@, p.0, p.1),
            decreases h.width - x,
        {
            proof {
                lemma_pixel_inside(h, b@.len() as int, x as int, y as int);
                assert(y * h.bytes_per_line <= usize::MAX);
                assert(x * bpp <= usize::MAX);
            }
            let at: usize = pixel_start + y as usize * h.bytes_per_line as usize + x as usize * bpp;
            let value: u32 = read_pixel(b, &h, at);
            let red: u8 = pick(value, h.red_mask, r_shift);
            let green: u8 = pick(value, h.green_mask, g_shift);
            let blue: u8 = pick(value, h.blue_mask, b_shift);
            put_pixel(&mut out, x, y, red, green, blue, 255);
            proof {
                assert((red, green, blue, 255u8) == xwd_pixel(b@, x as int, y as int));
            }
            x += 1;
        }
        y += 1;
    }
    proof {
        assert(pixels_of(out) =~= xwd_pixels(b@));
    }
    Ok(out)
}

/// Nothing is wrong with a dump exactly where its header is complete, of version
/// 7, in Z format, of depth 24 or 32 and as many bits per pixel, where the header,
/// the colour map and all rows lie inside it, and where every channel has a mask.
pub proof fn a_dump_is_sound_where_its_parts_are(b: Seq<u8>)
    ensures
        xwd_fault(b) is None <==> {
            &&& b.len() >= 100
            &&& be32(b, 4) == 7
            &&& be32(b, 8) == 2
            &&& be32(b, 12) == 24 || be32(b, 12) == 32
            &&& be32(b, 44) == 24 || be32(b, 44) == 32
            &&& be32(b, 0) + 12 * be32(b, 76) + be32(b, 48) * be32(b, 20) <= b.len()
            &&& be32(b, 56) != 0
            &&& be32(b, 60) != 0
            &&& be32(b, 64) != 0
        },
{
    assert(be32(b, 48) * be32(b, 20) >= 0) by (nonlinear_arith)
        requires
            be32(b, 48) >= 0,
            be32(b, 20) >= 0,
    ;
}

/// What a dump is refused for holds of it, and nothing that is looked at before
/// is wrong.
pub proof fn a_dump_is_refused_for_its_first_fault(b: Seq<u8>)
    requires
        b.len() <= usize::MAX,
    ensures
        xwd_fault(b) matches Some(XwdError::TooShort { len }) ==> b.len() < 100 && len == b.len(),
        b.len() < 100 ==> xwd_fault(b) == Some(XwdError::TooShort { len: b.len() as usize }),
        xwd_fault(b) matches Some(XwdError::FileVersion { version }) ==> version == be32(b, 4) && version != 7,
        b.len() >= 100 && be32(b, 4) != 7 ==> xwd_fault(b) matches Some(XwdError::FileVersion { .. }),
        xwd_fault(b) matches Some(XwdError::PixmapFormat { format }) ==> format == be32(b, 8) && format != 2,
        b.len() >= 100 && be32(b, 4) == 7 && be32(b, 8) != 2 ==> xwd_fault(b) matches Some(
            XwdError::PixmapFormat { .. },
        ),
        xwd_fault(b) matches Some(XwdError::PixmapDepth { depth }) ==> depth == be32(b, 12) && depth != 24 && depth
            != 32 && be32(b, 8) == 2,
        xwd_fault(b) matches Some(XwdError::BitsPerPixel { bits }) ==> bits == be32(b, 44) && bits != 24 && bits
            != 32 && (be32(b, 12) == 24 || be32(b, 12) == 32),
        xwd_fault(b) is Some && xwd_fault(b)->0 is Truncated ==> be32(b, 0) + 12 * be32(b, 76) > b.len() && (
        be32(b, 44) == 24 || be32(b, 44) == 32),
        xwd_fault(b) matches Some(XwdError::PixelsShort { have, need, width, height, stride, bits }) ==> {
            &&& have == b.len() - be32(b, 0) - 12 * be32(b, 76)
            &&& need == be32(b, 48) * be32(b, 20)
            &&& have < need
            &&& width == be32(b, 16)
            &&& height == be32(b, 20)
            &&& stride == be32(b, 48)
            &&& bits == be32(b, 44)
        },
        xwd_fault(b) is Some && xwd_fault(b)->0 is ZeroMask ==> be32(b, 56) == 0 || be32(b, 60) == 0 || be32(b, 64)
            == 0,
{
    let (s, h) = (header_of(b).bytes_per_line, header_of(b).height);
    lemma_product(s, h);
}

/// A dump with eight bits per channel, red above green above blue, as every
/// ordinary screen gives: the picture has a pixel for every column and row, made
/// of the bytes that stand for it in the dump, and opaque.
pub proof fn every_pixel_of_an_ordinary_dump_is_decoded(b: Seq<u8>, x: int, y: int)
    requires
        0 <= x < be32(b, 16),
        0 <= y < be32(b, 20),
        be32(b, 44) == 24 || be32(b, 44) == 32,
        be32(b, 56) == 0xff_0000,
        be32(b, 60) == 0xff00,
        be32(b, 64) == 0xff,
    ensures
        xwd_pixels(b).dom().contains((x, y)),
        ({
            let n = if be32(b, 44) == 32 {
                4int
            } else {
                3int
            };
            let at = be32(b, 0) + 12 * be32(b, 76) + y * be32(b, 48) + x * n;
            xwd_pixels(b)[(x, y)] == (if be32(b, 28) == 0 {
                (b[at + 2], b[at + 1], b[at], 255u8)
            } else {
                (b[at + n - 3], b[at + n - 2], b[at + n - 1], 255u8)
            })
        }),
{
    broadcast use vstd::std_specs::bits::group_bits_axioms;

    let h = header_of(b);
    let at = h.pixel_start() + y * h.bytes_per_line + x * h.pixel_bytes();
    let v = pixel_value(b, h, at);
    lemma_shifts();
    let (p0, p1, p2, p3) = if h.pixel_bytes() == 4 {
        if h.byte_order == 0 {
            (b[at], b[at + 1], b[at + 2], b[at + 3])
        } else {
            (b[at + 3], b[at + 2], b[at + 1], b[at])
        }
    } else if h.byte_order == 0 {
        (b[at], b[at + 1], b[at + 2], 0u8)
    } else {
        (b[at + 2], b[at + 1], b[at], 0u8)
    };
    assert(v as int == p0 + p1 * 0x100 + p2 * 0x1_0000 + p3 * 0x100_0000);
    lemma_bytes(v, p0, p1, p2, p3);
}

proof fn lemma_shifts()
    ensures
        u32_trailing_zeros(0xff_0000) == 16,
        u32_trailing_zeros(0xff00) == 8,
        u32_trailing_zeros(0xff) == 0,
{
    broadcast use vstd::std_specs::bits::group_bits_axioms;

    let a: u32 = u32_trailing_zeros(0xff_0000);
    let c: u32 = u32_trailing_zeros(0xff00);
    let d: u32 = u32_trailing_zeros(0xff);
    assert((0xff_0000u32 >> 16u32) & 1u32 == 1u32) by (bit_vector);
    assert((0xff00u32 >> 8u32) & 1u32 == 1u32) by (bit_vector);
    assert((0xffu32 >> 0u32) & 1u32 == 1u32) by (bit_vector);
    assert((0xff_0000u32 >> a) & 1u32 == 1u32);
    assert((0xff00u32 >> c) & 1u32 == 1u32);
    assert(a < 16 ==> (0xff_0000u32 >> a) & 1u32 == 0u32) by (bit_vector);
    assert(c < 8 ==> (0xff00u32 >> c) & 1u32 == 0u32) by (bit_vector);
}

proof fn lemma_bytes(v: u32, p0: u8, p1: u8, p2: u8, p3: u8)
    requires
        v as int == p0 + p1 * 0x100 + p2 * 0x1_0000 + p3 * 0x100_0000,
    ensures
        ((v & 0xff_0000) >> 16u32) as u8 == p2,
        ((v & 0xff00) >> 8u32) as u8 == p1,
        ((v & 0xff) >> 0u32) as u8 == p0,
{
    assert(((v & 0xff_0000) >> 16u32) as u8 == p2 && ((v & 0xff00) >> 8u32) as u8 == p1 && ((v & 0xff)
        >> 0u32) as u8 == p0) by (bit_vector)
        requires
            v == p0 + p1 * 0x100 + p2 * 0x1_0000 + p3 * 0x100_0000,
    ;
}

} // verus!
