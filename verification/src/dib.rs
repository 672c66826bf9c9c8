//! Device-independent bitmaps, as the clipboard hands them out, decoded to RGBA and to PNG.

use vstd::arithmetic::div_mod::*;
use vstd::arithmetic::mul::*;
use vstd::prelude::*;

verus! {

/// An image of rows from top to bottom, with four bytes (red, green, blue, alpha) per pixel.
pub struct Raster {
    pub width: u32,
    pub height: u32,
    pub rgba: Vec<u8>,
}

pub open spec fn u16_at(b: Seq<u8>, i: int) -> int {
    b[i] + b[i + 1] * 0x100
}

pub open spec fn u32_at(b: Seq<u8>, i: int) -> int {
    b[i] + b[i + 1] * 0x100 + b[i + 2] * 0x1_0000 + b[i + 3] * 0x100_0000
}

/// The layout of a bitmap's pixels.
pub struct Layout {
    pub width: int,
    pub height: int,
    /// Rows are stored from the bottom up.
    pub flip: bool,
    pub bytes_per_pixel: int,
    /// Where the first stored row starts.
    pub offset: int,
    /// The distance between the starts of two stored rows.
    pub stride: int,
}

/// The layout that the header of `dib` states. Rows of 24 or 32 bits per pixel are supported,
/// plain or with bit fields; what is shorter than its own header says has no layout.
pub open spec fn layout(dib: Seq<u8>) -> Option<Layout> {
    if dib.len() < 40 {
        None
    } else {
        let width = u32_at(dib, 4);
        let signed_height = u32_at(dib, 8);
        let flip = signed_height < 0x8000_0000;
        let height = if flip {
            signed_height
        } else {
            0x1_0000_0000 - signed_height
        };
        let bpp = u16_at(dib, 14);
        let compression = u32_at(dib, 16);
        let offset = u32_at(dib, 0) + if compression == 3 {
            12int
        } else {
            0int
        };
        let stride = (width * (bpp / 8) + 3) / 4 * 4;
        if width == 0 || height == 0 || (compression != 0 && compression != 3) || (bpp != 24 && bpp
            != 32) || dib.len() < offset + stride * height {
            None
        } else {
            Some(Layout { width, height, flip, bytes_per_pixel: bpp / 8, offset, stride })
        }
    }
}

/// Channel `c` (red, green, blue, alpha) of the pixel in row `y` and column `x`. Stored pixels
/// are in the order blue, green, red, and alpha where there are four bytes; alpha is full where
/// there are three.
pub open spec fn channel(dib: Seq<u8>, l: Layout, y: int, x: int, c: int) -> u8 {
    let row = if l.flip {
        l.height - 1 - y
    } else {
        y
    };
    let p = l.offset + row * l.stride + x * l.bytes_per_pixel;
    if c == 3 {
        if l.bytes_per_pixel == 4 {
            dib[p + 3]
        } else {
            255
        }
    } else {
        dib[p + 2 - c]
    }
}

/// All channels of all pixels, row by row.
pub open spec fn pixels(dib: Seq<u8>, l: Layout) -> Seq<u8> {
    Seq::new(
        (l.width * l.height * 4) as nat,
        |i: int| channel(dib, l, i / 4 / l.width, i / 4 % l.width, i % 4),
    )
}

fn read_u32(b: &[u8], i: usize) -> (res: u32)
    requires
        i + 4 <= b@.len(),
    ensures
        res == u32_at(b@, i as int),
{
    let n = b.len();
    b[i] as u32 + b[i + 1] as u32 * 0x100 + b[i + 2] as u32 * 0x1_0000 + b[i + 3] as u32
        * 0x100_0000
}

fn read_u16(b: &[u8], i: usize) -> (res: u16)
    requires
        i + 2 <= b@.len(),
    ensures
        res == u16_at(b@, i as int),
{
    let n = b.len();
    b[i] as u16 + b[i + 1] as u16 * 0x100
}

/// The row, column and channel that an index stands for.
pub proof fn lemma_pixel_index(w: int, y: int, x: int, c: int)
    requires
        0 <= x < w,
        0 <= y,
        0 <= c < 4,
    ensures
        ({
            let i = (y * w + x) * 4 + c;
            &&& i / 4 / w == y
            &&& i / 4 % w == x
            &&& i % 4 == c
        }),
{
    let i = (y * w + x) * 4 + c;
    assert(i / 4 == y * w + x && i % 4 == c);
    lemma_fundamental_div_mod_converse(y * w + x, w, y, x);
}

proof fn lemma_source_in_bounds(l: Layout, len: int, row: int, x: int)
    requires
        0 < l.width,
        0 <= x < l.width,
        0 <= row < l.height,
        0 <= l.offset,
        l.bytes_per_pixel == 3 || l.bytes_per_pixel == 4,
        l.stride == (l.width * l.bytes_per_pixel + 3) / 4 * 4,
        l.offset + l.stride * l.height <= len,
    ensures
        0 <= row * l.stride,
        0 <= x * l.bytes_per_pixel,
        l.offset + row * l.stride + x * l.bytes_per_pixel + l.bytes_per_pixel <= len,
{
    let b = l.bytes_per_pixel;
    assert(x * b + b <= l.width * b) by (nonlinear_arith)
        requires
            x + 1 <= l.width,
            b > 0,
    ;
    assert(0 <= x * b) by (nonlinear_arith)
        requires
            0 <= x,
            b > 0,
    ;
    assert(l.stride >= l.width * b);
    assert(row * l.stride + l.stride <= l.stride * l.height) by (nonlinear_arith)
        requires
            row + 1 <= l.height,
            l.stride >= 0,
    ;
    assert(0 <= row * l.stride) by (nonlinear_arith)
        requires
            0 <= row,
            l.stride >= 0,
    ;
}

/// Decodes a bitmap; `None` where its header states no supported layout.
pub fn dib_to_image(dib: &[u8]) -> (res: Option<Raster>)
    ensures
        match res {
            Some(r) => layout(dib@) matches Some(l) && r.width == l.width && r.height == l.height
                && r.rgba@ == pixels(dib@, l),
            None => layout(dib@) is None,
        },
{
    let len = dib.len();
    if len < 40 {
        return None;
    }
    let hdr_size = read_u32(dib, 0);
    let width = read_u32(dib, 4);
    let signed_height = read_u32(dib, 8);
    if width == 0 || signed_height == 0 {
        return None;
    }
    let flip = signed_height < 0x8000_0000;
    let height: u32 = if flip {
        signed_height
    } else {
        0xffff_ffff - signed_height + 1
    };
    let bpp = read_u16(dib, 14);
    let compression = read_u32(dib, 16);
    if compression != 0 && compression != 3 {
        return None;
    }
    if bpp != 24 && bpp != 32 {
        return None;
    }
    let offset: u128 = hdr_size as u128 + if compression == 3 {
        12
    } else {
        0
    };
    let bytes: usize = if bpp == 32 {
        4
    } else {
        3
    };
    assert(width * bytes <= 0xffff_ffff * 4) by (nonlinear_arith)
        requires
            width <= 0xffff_ffff,
            bytes <= 4,
    ;
    let stride: u128 = (width as u128 * bytes as u128 + 3) / 4 * 4;
    assert(stride * height <= 0x4_0000_0000 * 0x1_0000_0000) by (nonlinear_arith)
        requires
            0 <= stride <= 0x4_0000_0000,
            height <= 0x1_0000_0000,
    ;
    if (len as u128) < offset + stride * height as u128 {
        return None;
    }
    let ghost l = Layout {
        width: width as int,
        height: height as int,
        flip,
        bytes_per_pixel: bytes as int,
        offset: offset as int,
        stride: stride as int,
    };
    assert(layout(dib@) == Some(l));
    proof {
        lemma_source_in_bounds(l, len as int, 0, 0);
        assert(stride <= stride * height) by (nonlinear_arith)
            requires
                0 <= stride,
                height >= 1,
        ;
    }
    let stride = stride as usize;
    let offset = offset as usize;
    let mut rgba: Vec<u8> = Vec::new();
    let ghost all = pixels(dib@, l);
    let mut y: u32 = 0;
    assert(0 * l.width == 0);
    while y < height
        invariant
            y <= height,
            len == dib@.len(),
            0 < width,
            l == (Layout {
                width: width as int,
                height: height as int,
                flip,
                bytes_per_pixel: bytes as int,
                offset: offset as int,
                stride: stride as int,
            }),
            bytes == 3 || bytes == 4,
            l.stride == (l.width * l.bytes_per_pixel + 3) / 4 * 4,
            l.offset + l.stride * l.height <= len,
            all == pixels(dib@, l),
            rgba@.len() == (y * width) * 4,
            forall|i: int| 0 <= i < rgba@.len() ==> rgba@[i] == #[trigger] all[i],
        decreases height - y,
    {
        let row: u32 = if flip {
            height - 1 - y
        } else {
            y
        };
        let mut x: u32 = 0;
        while x < width
            invariant
                y < height,
                x <= width,
                len == dib@.len(),
                0 < width,
                row == (if flip {
                    height - 1 - y
                } else {
                    y as int
                }),
                l == (Layout {
                    width: width as int,
                    height: height as int,
                    flip,
                    bytes_per_pixel: bytes as int,
                    offset: offset as int,
                    stride: stride as int,
                }),
                bytes == 3 || bytes == 4,
                l.stride == (l.width * l.bytes_per_pixel + 3) / 4 * 4,
                l.offset + l.stride * l.height <= len,
                all == pixels(dib@, l),
                rgba@.len() == (y * width + x) * 4,
                forall|i: int| 0 <= i < rgba@.len() ==> rgba@[i] == #[trigger] all[i],
            decreases width - x,
        {
            proof {
                lemma_source_in_bounds(l, len as int, row as int, x as int);
                lemma_pixel_index(width as int, y as int, x as int, 0);
                lemma_pixel_index(width as int, y as int, x as int, 1);
                lemma_pixel_index(width as int, y as int, x as int, 2);
                lemma_pixel_index(width as int, y as int, x as int, 3);
                assert(y * width + x + 1 <= width * height) by (nonlinear_arith)
                    requires
                        y + 1 <= height,
                        x + 1 <= width,
                ;
            }
            let p = offset + row as usize * stride + x as usize * bytes;
            let ghost before = rgba@;
            rgba.push(dib[p + 2]);
            rgba.push(dib[p + 1]);
            rgba.push(dib[p]);
            rgba.push(
                if bytes == 4 {
                    dib[p + 3]
                } else {
                    255
                },
            );
            proof {
                let k = (y * width + x) * 4;
                assert forall|i: int| 0 <= i < rgba@.len() implies rgba@[i] == #[trigger] all[i] by {
                    if i < k {
                        assert(rgba@[i] == before[i]);
                    } else {
                        let c = i - k;
                        assert(all[i] == channel(dib@, l, y as int, x as int, c));
                    }
                }
            }
            x += 1;
        }
        assert(y * width + width == (y + 1) * width) by (nonlinear_arith);
        y += 1;
    }
    assert((height * width) * 4 == width * height * 4) by (nonlinear_arith);
    assert(rgba@ =~= all);
    Some(Raster { width, height, rgba })
}

/// The PNG file of an image of the given size and channels.
pub uninterp spec fn png_encoding(width: u32, height: u32, rgba: Seq<u8>) -> Option<Seq<u8>>;

/// `image::DynamicImage::write_to` with the PNG format, on an image made of the channels by
/// `RgbaImage::from_raw`: the file's bytes are a function of size and channels, and none come out
/// where the encoder refuses.
#[verifier::external_body]
fn encode_png(width: u32, height: u32, rgba: Vec<u8>) -> (res: Option<Vec<u8>>)
    requires
        width > 0,
        height > 0,
        rgba@.len() == width * height * 4,
    ensures
        match res {
            Some(png) => png_encoding(width, height, rgba@) == Some(png@),
            None => png_encoding(width, height, rgba@) is None,
        },
{
    let img = image::RgbaImage::from_raw(width, height, rgba)?;
    let mut buf = Vec::new();
    image::DynamicImage::ImageRgba8(img)
        .write_to(&mut std::io::Cursor::new(&mut buf), image::ImageFormat::Png)
        .ok()?;
    Some(buf)
}

/// Decodes a bitmap and encodes it as PNG.
pub fn dib_to_png(dib: &[u8]) -> (res: Option<Vec<u8>>)
    ensures
        match (res, layout(dib@)) {
            (Some(png), Some(l)) => png_encoding(
                l.width as u32,
                l.height as u32,
                pixels(dib@, l),
            ) == Some(png@),
            (None, Some(l)) => png_encoding(l.width as u32, l.height as u32, pixels(dib@, l)) is None,
            (Some(_), None) => false,
            (None, None) => true,
        },
{
    match dib_to_image(dib) {
        None => None,
        Some(r) => encode_png(r.width, r.height, r.rgba),
    }
}

} // verus!
