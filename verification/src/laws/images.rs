//! Laws of bitmaps: where in the bytes of a bitmap the channels of its pixels come from.

use crate::dib::{dib_to_image, dib_to_png, Raster};
use vstd::prelude::*;

verus! {

/// The number in `n` bytes from `i` on, the lowest byte first.
pub open spec fn number_at(b: Seq<u8>, i: int, n: nat) -> int
    decreases n,
{
    if n == 0 {
        0
    } else {
        b[i] + 256 * number_at(b, i + 1, (n - 1) as nat)
    }
}

/// What the header of a bitmap says. The height is below zero where rows come from the top down.
pub struct Header {
    pub size: int,
    pub width: int,
    pub height: int,
    pub bits: int,
    pub compression: int,
}

/// The header of a bitmap of at least forty bytes: its size, width and height, the bits of a
/// pixel, and the compression, at their places.
pub open spec fn header_of(dib: Seq<u8>) -> Header {
    let height = number_at(dib, 8, 4);
    Header {
        size: number_at(dib, 0, 4),
        width: number_at(dib, 4, 4),
        height: if height < 0x8000_0000 {
            height
        } else {
            height - 0x1_0000_0000
        },
        bits: number_at(dib, 14, 2),
        compression: number_at(dib, 16, 4),
    }
}

/// Whether a row of the bitmap takes `stride` bytes: the bytes of its pixels, filled up to the
/// next multiple of four.
pub open spec fn is_stride(h: Header, stride: int) -> bool {
    let bytes = h.width * (if h.bits == 32 {
        4int
    } else {
        3int
    });
    stride % 4 == 0 && bytes <= stride < bytes + 4
}

/// Where the rows start: behind the header, and behind the three masks where there are masks.
pub open spec fn rows_start(h: Header) -> int {
    if h.compression == 3 {
        h.size + 12
    } else {
        h.size
    }
}

/// The number of rows.
pub open spec fn rows_of(h: Header) -> int {
    if h.height < 0 {
        -h.height
    } else {
        h.height
    }
}

proof fn lemma_numbers(dib: Seq<u8>)
    requires
        dib.len() >= 40,
    ensures
        number_at(dib, 0, 4) == crate::dib::u32_at(dib, 0),
        number_at(dib, 4, 4) == crate::dib::u32_at(dib, 4),
        number_at(dib, 8, 4) == crate::dib::u32_at(dib, 8),
        number_at(dib, 14, 2) == crate::dib::u16_at(dib, 14),
        number_at(dib, 16, 4) == crate::dib::u32_at(dib, 16),
{
    reveal_with_fuel(number_at, 5);
}

proof fn lemma_stride(bytes: int, stride: int)
    requires
        stride % 4 == 0,
        bytes <= stride < bytes + 4,
    ensures
        stride == (bytes + 3) / 4 * 4,
{
}

/// A bitmap is decoded where its header is whole, it has pixels of 24 or 32 bits, plain or with
/// masks, at least one of them, and all its rows are there.
pub proof fn law_bitmap_accepted(dib: &[u8], stride: int, res: Option<Raster>)
    requires
        call_ensures(dib_to_image, (dib,), res),
        is_stride(header_of(dib@), stride),
    ensures
        ({
            let h = header_of(dib@);
            res is Some <==> {
                &&& dib@.len() >= 40
                &&& h.width > 0
                &&& h.height != 0
                &&& h.bits == 24 || h.bits == 32
                &&& h.compression == 0 || h.compression == 3
                &&& rows_start(h) + rows_of(h) * stride <= dib@.len()
            }
        }),
{
    let h = header_of(dib@);
    if dib@.len() >= 40 {
        lemma_numbers(dib@);
        if h.bits == 24 || h.bits == 32 {
            let bytes = h.width * (if h.bits == 32 {
                4int
            } else {
                3int
            });
            lemma_stride(bytes, stride);
            assert(h.bits / 8 == if h.bits == 32 {
                4int
            } else {
                3int
            });
            assert(rows_of(h) * stride == stride * rows_of(h)) by (nonlinear_arith);
        }
    }
}

/// The pixel in column `x` of row `y` from the top comes from that column of the row that is
/// stored at that place, counted from the bottom where the height is above zero. Its bytes are
/// blue, green, red, and alpha where there are 32 bits; without alpha it is opaque.
pub proof fn law_pixel(dib: &[u8], stride: int, res: Option<Raster>, y: int, x: int)
    requires
        call_ensures(dib_to_image, (dib,), res),
        is_stride(header_of(dib@), stride),
        res is Some,
        0 <= x < header_of(dib@).width,
        0 <= y < rows_of(header_of(dib@)),
    ensures
        ({
            let h = header_of(dib@);
            let r = res->0;
            let row = if h.height > 0 {
                rows_of(h) - 1 - y
            } else {
                y
            };
            let from = rows_start(h) + row * stride + x * (h.bits / 8);
            let to = (y * h.width + x) * 4;
            &&& r.width == h.width
            &&& r.height == rows_of(h)
            &&& r.rgba@.len() == h.width * rows_of(h) * 4
            &&& r.rgba@[to] == dib@[from + 2]
            &&& r.rgba@[to + 1] == dib@[from + 1]
            &&& r.rgba@[to + 2] == dib@[from]
            &&& h.bits == 32 ==> r.rgba@[to + 3] == dib@[from + 3]
            &&& h.bits == 24 ==> r.rgba@[to + 3] == 255
        }),
{
    law_bitmap_accepted(dib, stride, res);
    lemma_numbers(dib@);
    let h = header_of(dib@);
    let l = crate::dib::layout(dib@)->0;
    let bytes = h.width * (if h.bits == 32 {
        4int
    } else {
        3int
    });
    lemma_stride(bytes, stride);
    assert(l.stride == stride);
    assert(l.height == rows_of(h));
    assert(0 <= y * h.width + x && y * h.width + x + 1 <= h.width * rows_of(h)) by (nonlinear_arith)
        requires
            0 <= y,
            y + 1 <= rows_of(h),
            0 <= x,
            x + 1 <= h.width,
    ;
    let to = (y * h.width + x) * 4;
    crate::dib::lemma_pixel_index(h.width, y, x, 0);
    crate::dib::lemma_pixel_index(h.width, y, x, 1);
    crate::dib::lemma_pixel_index(h.width, y, x, 2);
    crate::dib::lemma_pixel_index(h.width, y, x, 3);
    let all = crate::dib::pixels(dib@, l);
    assert(all.len() == h.width * rows_of(h) * 4);
    assert(all[to] == crate::dib::channel(dib@, l, y, x, 0));
    assert(all[to + 1] == crate::dib::channel(dib@, l, y, x, 1));
    assert(all[to + 2] == crate::dib::channel(dib@, l, y, x, 2));
    assert(all[to + 3] == crate::dib::channel(dib@, l, y, x, 3));
}

/// The picture for display is the decoded bitmap as a PNG file; a bitmap that is not decoded has
/// none.
pub proof fn law_png(dib: &[u8], decoded: Option<Raster>, res: Option<Vec<u8>>)
    requires
        call_ensures(dib_to_image, (dib,), decoded),
        call_ensures(dib_to_png, (dib,), res),
    ensures
        decoded is None ==> res is None,
        decoded is Some ==> crate::content::opt_bytes(res) == crate::dib::png_encoding(
            decoded->0.width,
            decoded->0.height,
            decoded->0.rgba@,
        ),
{
    if decoded is Some {
        let l = crate::dib::layout(dib@)->0;
        assert(l.width as u32 == decoded->0.width);
        assert(l.height as u32 == decoded->0.height);
    }
}

} // verus!
