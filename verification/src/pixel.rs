//! Pixel formats and the encoding of pixels in them.
use vstd::prelude::*;

use crate::bytes;
use crate::damage;
use crate::rect::Rect;

verus! {

/// A pixel format that a client asks for.
#[derive(Clone, Copy, Debug, PartialEq, Eq, Structural)]
pub struct VncPixelFormat {
    pub bpp: u8,
    pub big_endian: bool,
    pub r_max: u16,
    pub g_max: u16,
    pub b_max: u16,
    pub r_shift: u8,
    pub g_shift: u8,
    pub b_shift: u8,
}

/// A colour of 0 to 255 on the scale of 0 to `max`, rounded down.
pub open spec fn scaled(colour: u8, max: u16) -> int {
    (colour * max) / 255
}

impl VncPixelFormat {
    /// The layout of the frame itself: 32 bits per pixel, least significant
    /// byte first, red, green and blue from the third byte down.
    pub open spec fn spec_native() -> VncPixelFormat {
        VncPixelFormat {
            bpp: 32,
            big_endian: false,
            r_max: 255,
            g_max: 255,
            b_max: 255,
            r_shift: 16,
            g_shift: 8,
            b_shift: 0,
        }
    }

    /// The format that a 16-byte PIXEL_FORMAT structure describes.
    pub open spec fn spec_parse(b: Seq<u8>) -> VncPixelFormat {
        VncPixelFormat {
            bpp: b[0],
            big_endian: b[2] != 0,
            r_max: bytes::be16_value(b[4], b[5]) as u16,
            g_max: bytes::be16_value(b[6], b[7]) as u16,
            b_max: bytes::be16_value(b[8], b[9]) as u16,
            r_shift: b[10],
            g_shift: b[11],
            b_shift: b[12],
        }
    }

    /// How many bytes a pixel takes: at least one.
    pub open spec fn bytes_per_pixel(self) -> int {
        if self.bpp < 8 {
            1
        } else {
            self.bpp as int / 8
        }
    }

    /// Whether pixels can be converted to the format: a shift stays within the
    /// 32 bits of a colour value, and a pixel within 64 bits.
    pub open spec fn convertible(self) -> bool {
        self.r_shift < 32 && self.g_shift < 32 && self.b_shift < 32 && self.bytes_per_pixel() <= 8
    }

    /// The number that stands for a colour.
    pub open spec fn value(self, r: u8, g: u8, b: u8) -> u32 {
        ((scaled(r, self.r_max) as u32) << self.r_shift) | ((scaled(g, self.g_max) as u32)
            << self.g_shift) | ((scaled(b, self.b_max) as u32) << self.b_shift)
    }

    /// The bytes that stand for a colour.
    pub open spec fn converted(self, r: u8, g: u8, b: u8) -> Seq<u8> {
        let n = self.bytes_per_pixel();
        let v = self.value(r, g, b) as u64;
        Seq::new(
            n as nat,
            |i: int| (v >> (8 * (if self.big_endian { n - 1 - i } else { i })) as u64) as u8,
        )
    }

    /// The bytes that stand for the pixel at `offset` of a frame: its own four
    /// where the format is the frame's.
    pub open spec fn encoded_pixel(self, bgra: Seq<u8>, offset: int) -> Seq<u8> {
        if self == VncPixelFormat::spec_native() {
            bgra.subrange(offset, offset + 4)
        } else {
            self.converted(bgra[offset + 2], bgra[offset + 1], bgra[offset])
        }
    }

    /// The bytes that stand for `n` pixels in a row, from `offset` of a frame
    /// on.
    pub open spec fn encoded_row(self, bgra: Seq<u8>, offset: int, n: int) -> Seq<u8>
        decreases n,
    {
        if n <= 0 {
            Seq::empty()
        } else {
            self.encoded_row(bgra, offset, n - 1) + self.encoded_pixel(bgra, offset + (n - 1) * 4)
        }
    }

    /// The bytes that stand for the first `rows` rows of a rectangle of a frame
    /// that is `width` pixels wide, top row first.
    pub open spec fn encoded_rows(self, bgra: Seq<u8>, width: int, rect: Rect, rows: int) -> Seq<
        u8,
    >
        decreases rows,
    {
        if rows <= 0 {
            Seq::empty()
        } else {
            self.encoded_rows(bgra, width, rect, rows - 1) + self.encoded_row(
                bgra,
                damage::pixel_offset(width, rect.x as int, rect.y + rows - 1),
                rect.width as int,
            )
        }
    }

    /// The bytes that stand for a rectangle of a frame.
    pub open spec fn encoded_rect(self, bgra: Seq<u8>, width: int, rect: Rect) -> Seq<u8> {
        self.encoded_rows(bgra, width, rect, rect.height as int)
    }

    /// The layout of the frame itself.
    pub fn native() -> (r: Self)
        ensures
            r == VncPixelFormat::spec_native(),
    {
        VncPixelFormat {
            bpp: 32,
            big_endian: false,
            r_max: 255,
            g_max: 255,
            b_max: 255,
            r_shift: 16,
            g_shift: 8,
            b_shift: 0,
        }
    }

    /// Parses the 16-byte PIXEL_FORMAT structure of a SetPixelFormat message.
    pub fn parse(b: &[u8; 16]) -> (r: Self)
        ensures
            r == VncPixelFormat::spec_parse(b@),
    {
        VncPixelFormat {
            bpp: b[0],
            big_endian: b[2] != 0,
            r_max: bytes::be16(b[4], b[5]),
            g_max: bytes::be16(b[6], b[7]),
            b_max: bytes::be16(b[8], b[9]),
            r_shift: b[10],
            g_shift: b[11],
            b_shift: b[12],
        }
    }

    /// Whether the format is the layout of the frame itself.
    pub fn is_native(&self) -> (r: bool)
        ensures
            r == (*self == VncPixelFormat::spec_native()),
    {
        self.bpp == 32 && !self.big_endian && self.r_max == 255 && self.g_max == 255 && self.b_max
            == 255 && self.r_shift == 16 && self.g_shift == 8 && self.b_shift == 0
    }

    /// Whether pixels can be converted to the format.
    pub fn is_convertible(&self) -> (r: bool)
        ensures
            r == self.convertible(),
    {
        self.r_shift < 32 && self.g_shift < 32 && self.b_shift < 32 && self.bpp < 72
    }
}

/// Whether a rectangle lies in a frame of `len` bytes that is `width` pixels
/// wide, its last row included.
pub open spec fn rect_in_frame(len: int, width: int, rect: Rect) -> bool {
    rect.height > 0 ==> damage::pixel_offset(width, rect.x as int, rect.y + rect.height - 1)
        + rect.width * 4 <= len
}

/// Whether a rectangle of a frame can be encoded: it lies in the frame, its
/// pixels can be converted, and the result fits in memory.
pub open spec fn encodable(len: int, width: int, rect: Rect, fmt: VncPixelFormat) -> bool {
    &&& rect_in_frame(len, width, rect)
    &&& fmt == VncPixelFormat::spec_native() || rect.spec_is_empty() || fmt.convertible()
    &&& rect.width * rect.height * fmt.bytes_per_pixel() <= isize::MAX
}

/// Whether a rectangle of a frame of `len` bytes can be encoded.
pub fn can_encode(len: usize, width: u16, rect: Rect, fmt: &VncPixelFormat) -> (r: bool)
    ensures
        r == encodable(len as int, width as int, rect, *fmt),
{
    let x: u64 = rect.x as u64;
    let y: u64 = rect.y as u64;
    let w: u64 = rect.width as u64;
    let h: u64 = rect.height as u64;
    if h > 0 {
        let last: u64 = y + h - 1;
        assert(0 <= last * width <= 0x2_0000 * 0x1_0000) by (nonlinear_arith)
            requires
                0 <= last <= 0x2_0000,
                0 <= width <= 0x1_0000,
        ;
        if (last * width as u64 + x) * 4 + w * 4 > len as u64 {
            return false;
        }
    }
    if !fmt.is_native() && !rect.is_empty() && !fmt.is_convertible() {
        return false;
    }
    let n: u64 = if fmt.bpp < 8 {
        1
    } else {
        (fmt.bpp / 8) as u64
    };
    assert(0 <= w * h <= 0x1_0000_0000) by (nonlinear_arith)
        requires
            0 <= w <= 0x1_0000,
            0 <= h <= 0x1_0000,
    ;
    assert(0 <= w * h * n <= 0x1_0000_0000 * 32) by (nonlinear_arith)
        requires
            0 <= w * h <= 0x1_0000_0000,
            0 <= n <= 32,
    ;
    w * h * n <= isize::MAX as u64
}

/// Converting a row to the frame's own layout copies it.
proof fn lemma_native_row(bgra: Seq<u8>, offset: int, n: int)
    requires
        0 <= n,
        0 <= offset,
        offset + n * 4 <= bgra.len(),
    ensures
        VncPixelFormat::spec_native().encoded_row(bgra, offset, n) == bgra.subrange(
            offset,
            offset + n * 4,
        ),
    decreases n,
{
    if n > 0 {
        lemma_native_row(bgra, offset, n - 1);
    }
    assert(VncPixelFormat::spec_native().encoded_row(bgra, offset, n) =~= bgra.subrange(
        offset,
        offset + n * 4,
    ));
}

/// A row above another one starts and ends before it.
proof fn lemma_row_fits(width: int, rect: Rect, row: int)
    requires
        0 <= width,
        0 <= row < rect.height,
    ensures
        0 <= (rect.y + row) * width,
        0 <= damage::pixel_offset(width, rect.x as int, rect.y + row),
        damage::pixel_offset(width, rect.x as int, rect.y + row) <= damage::pixel_offset(
            width,
            rect.x as int,
            rect.y + rect.height - 1,
        ),
{
    assert(0 <= (rect.y + row) * width <= (rect.y + rect.height - 1) * width) by (nonlinear_arith)
        requires
            0 <= width,
            0 <= row < rect.height,
    ;
}

/// Appends the bytes that stand for a colour.
fn push_converted(out: &mut Vec<u8>, fmt: &VncPixelFormat, r: u8, g: u8, b: u8)
    requires
        fmt.convertible(),
    ensures
        final(out)@ == old(out)@ + fmt.converted(r, g, b),
{
    assert(r * fmt.r_max <= 255 * 65535) by (nonlinear_arith)
        requires
            r <= 255,
            fmt.r_max <= 65535,
    ;
    assert(g * fmt.g_max <= 255 * 65535) by (nonlinear_arith)
        requires
            g <= 255,
            fmt.g_max <= 65535,
    ;
    assert(b * fmt.b_max <= 255 * 65535) by (nonlinear_arith)
        requires
            b <= 255,
            fmt.b_max <= 65535,
    ;
    let rc: u32 = r as u32 * fmt.r_max as u32 / 255;
    let gc: u32 = g as u32 * fmt.g_max as u32 / 255;
    let bc: u32 = b as u32 * fmt.b_max as u32 / 255;
    let val: u64 = ((rc << fmt.r_shift) | (gc << fmt.g_shift) | (bc << fmt.b_shift)) as u64;
    assert(val == fmt.value(r, g, b));
    let n: u64 = if fmt.bpp < 8 {
        1
    } else {
        (fmt.bpp / 8) as u64
    };
    assert(n == fmt.bytes_per_pixel());
    let ghost all = fmt.converted(r, g, b);
    let mut i: u64 = 0;
    while i < n
        invariant
            i <= n <= 8,
            n == fmt.bytes_per_pixel(),
            val == fmt.value(r, g, b),
            all == fmt.converted(r, g, b),
            out@ == old(out)@ + all.take(i as int),
        decreases n - i,
    {
        let k: u64 = if fmt.big_endian {
            n - 1 - i
        } else {
            i
        };
        let shift: u64 = 8 * k;
        out.push((val >> shift) as u8);
        assert(all.take(i + 1) =~= all.take(i as int).push(all[i as int]));
        i = i + 1;
    }
    assert(all.take(n as int) =~= all);
}

/// Appends the bytes that stand for `n` pixels in a row, where the format is
/// not the frame's.
fn push_row(out: &mut Vec<u8>, bgra: &[u8], fmt: &VncPixelFormat, offset: usize, n: usize)
    requires
        *fmt != VncPixelFormat::spec_native(),
        n > 0 ==> fmt.convertible(),
        offset + n * 4 <= bgra@.len(),
    ensures
        final(out)@ == old(out)@ + fmt.encoded_row(bgra@, offset as int, n as int),
{
    let ghost before = out@;
    let mut k: usize = 0;
    assert(bgra.len() == bgra@.len());
    assert(out@ =~= before + fmt.encoded_row(bgra@, offset as int, 0));
    while k < n
        invariant
            k <= n,
            *fmt != VncPixelFormat::spec_native(),
            n > 0 ==> fmt.convertible(),
            offset + n * 4 <= bgra@.len(),
            bgra@.len() <= usize::MAX,
            out@ == before + fmt.encoded_row(bgra@, offset as int, k as int),
        decreases n - k,
    {
        let i: usize = offset + k * 4;
        push_converted(out, fmt, bgra[i + 2], bgra[i + 1], bgra[i]);
        k = k + 1;
        assert(out@ =~= before + fmt.encoded_row(bgra@, offset as int, k as int));
    }
}

/// Replaces what `out` holds by the bytes that stand for a rectangle of a
/// top-down frame, which is `width` pixels wide, in the format `fmt`.
pub fn encode_rect(
    bgra: &[u8],
    width: usize,
    rect: Rect,
    fmt: &VncPixelFormat,
    out: &mut Vec<u8>,
)
    requires
        encodable(bgra@.len() as int, width as int, rect, *fmt),
    ensures
        final(out)@ == fmt.encoded_rect(bgra@, width as int, rect),
{
    out.clear();
    let x: usize = rect.x as usize;
    let y: usize = rect.y as usize;
    let w: usize = rect.width as usize;
    let h: usize = rect.height as usize;
    let native: bool = fmt.is_native();
    let n: usize = if fmt.bpp < 8 {
        1
    } else {
        (fmt.bpp / 8) as usize
    };
    assert(w * h <= w * h * n) by (nonlinear_arith)
        requires
            0 <= w,
            0 <= h,
            1 <= n,
    ;
    out.reserve(w * h * n);
    let mut row: usize = 0;
    assert(bgra.len() == bgra@.len());
    while row < h
        invariant
            row <= h,
            x == rect.x,
            y == rect.y,
            w == rect.width,
            h == rect.height,
            native == (*fmt == VncPixelFormat::spec_native()),
            native || rect.spec_is_empty() || fmt.convertible(),
            bgra@.len() <= usize::MAX,
            rect_in_frame(bgra@.len() as int, width as int, rect),
            out@ == fmt.encoded_rows(bgra@, width as int, rect, row as int),
        decreases h - row,
    {
        proof {
            lemma_row_fits(width as int, rect, row as int);
        }
        let start: usize = ((y + row) * width + x) * 4;
        if native {
            let pixels: &[u8] = vstd::slice::slice_subrange(bgra, start, start + w * 4);
            proof {
                lemma_native_row(bgra@, start as int, w as int);
            }
            bytes::push_bytes(out, pixels);
        } else {
            push_row(out, bgra, fmt, start, w);
        }
        row = row + 1;
    }
}

/// A colour keeps its place on another scale: black stays at the bottom, full
/// brightness goes to the top, and the brighter of two colours is not the
/// darker one.
pub proof fn law_scaled(a: u8, b: u8, max: u16)
    requires
        a <= b,
    ensures
        scaled(a, max) == (a * max) / 255,
        scaled(0, max) == 0,
        scaled(255, max) == max,
        0 <= scaled(a, max) <= scaled(b, max) <= max,
        scaled(a, 255) == a,
{
    assert(0 <= a * max <= b * max <= 255 * max) by (nonlinear_arith)
        requires
            0 <= a <= b <= 255,
            0 <= max,
    ;
}

/// The frame's own layout is the one that conversion would give it: the bytes
/// of a pixel are blue, green and red, in this order, and one that is not
/// shown.
pub proof fn law_native_layout(r: u8, g: u8, b: u8)
    ensures
        VncPixelFormat::spec_native().converted(r, g, b) == seq![b, g, r, 0u8],
{
    let fmt = VncPixelFormat::spec_native();
    let v = fmt.value(r, g, b);
    let c = fmt.converted(r, g, b);
    assert(scaled(r, 255) == r && scaled(g, 255) == g && scaled(b, 255) == b);
    let rc = r as u32;
    let gc = g as u32;
    let bc = b as u32;
    assert(v == (rc << 16u8) | (gc << 8u8) | (bc << 0u8));
    let wide = v as u64;
    assert((wide >> 0u64) as u8 == b && (wide >> 8u64) as u8 == g && (wide >> 16u64) as u8 == r && (
    wide >> 24u64) as u8 == 0) by (bit_vector)
        requires
            v == (rc << 16u8) | (gc << 8u8) | (bc << 0u8),
            wide == v as u64,
            rc == r as u32,
            gc == g as u32,
            bc == b as u32,
    ;
    assert(c[0] == b && c[1] == g && c[2] == r && c[3] == 0);
    assert(c =~= seq![b, g, r, 0u8]);
}

/// A row takes as many bytes as its pixels, one after the other.
proof fn lemma_row_pixels(fmt: VncPixelFormat, bgra: Seq<u8>, offset: int, n: int, i: int)
    requires
        0 <= n,
        0 <= offset,
        offset + n * 4 <= bgra.len(),
    ensures
        fmt.encoded_row(bgra, offset, n).len() == n * fmt.bytes_per_pixel(),
        0 <= i < n ==> fmt.encoded_row(bgra, offset, n).subrange(
            i * fmt.bytes_per_pixel(),
            i * fmt.bytes_per_pixel() + fmt.bytes_per_pixel(),
        ) == fmt.encoded_pixel(bgra, offset + i * 4),
    decreases n,
{
    let p = fmt.bytes_per_pixel();
    if n > 0 {
        let row = fmt.encoded_row(bgra, offset, n);
        let shorter = fmt.encoded_row(bgra, offset, n - 1);
        let last = fmt.encoded_pixel(bgra, offset + (n - 1) * 4);
        lemma_row_pixels(fmt, bgra, offset, n - 1, i);
        assert(last.len() == p);
        assert((n - 1) * p + p == n * p) by (nonlinear_arith);
        if i == n - 1 {
            assert(row.subrange(i * p, i * p + p) =~= last);
        } else if 0 <= i < n - 1 {
            assert(0 <= i * p && i * p + p <= (n - 1) * p) by (nonlinear_arith)
                requires
                    0 <= i < n - 1,
                    0 < p,
            ;
            assert(row.subrange(i * p, i * p + p) =~= shorter.subrange(i * p, i * p + p));
        }
    } else {
        assert(0 * p == 0);
    }
}

/// The rows of a rectangle take as many bytes as its pixels, row after row.
proof fn lemma_rows_pixels(
    fmt: VncPixelFormat,
    bgra: Seq<u8>,
    width: int,
    rect: Rect,
    rows: int,
    i: int,
    j: int,
)
    requires
        0 <= width,
        0 <= rows <= rect.height,
        rect_in_frame(bgra.len() as int, width, rect),
    ensures
        fmt.encoded_rows(bgra, width, rect, rows).len() == rows * rect.width
            * fmt.bytes_per_pixel(),
        0 <= i < rect.width && 0 <= j < rows ==> {
            let at = (j * rect.width + i) * fmt.bytes_per_pixel();
            &&& 0 <= at
            &&& at + fmt.bytes_per_pixel() <= rows * rect.width * fmt.bytes_per_pixel()
            &&& fmt.encoded_rows(bgra, width, rect, rows).subrange(at, at + fmt.bytes_per_pixel())
                == fmt.encoded_pixel(bgra, damage::pixel_offset(width, rect.x + i, rect.y + j))
        },
    decreases rows,
{
    let p = fmt.bytes_per_pixel();
    let w = rect.width as int;
    if rows > 0 {
        let all = fmt.encoded_rows(bgra, width, rect, rows);
        let above = fmt.encoded_rows(bgra, width, rect, rows - 1);
        let start = damage::pixel_offset(width, rect.x as int, rect.y + rows - 1);
        let last = fmt.encoded_row(bgra, start, w);
        lemma_rows_pixels(fmt, bgra, width, rect, rows - 1, i, j);
        lemma_row_fits(width, rect, rows - 1);
        lemma_row_pixels(fmt, bgra, start, w, i);
        assert((rows - 1) * w * p + w * p == rows * w * p) by (nonlinear_arith);
        if 0 <= i < w && 0 <= j < rows {
            let at = (j * w + i) * p;
            assert(at == j * w * p + i * p) by (nonlinear_arith)
                requires
                    at == (j * w + i) * p,
            ;
            assert(0 <= i * p && i * p + p <= w * p) by (nonlinear_arith)
                requires
                    0 <= i < w,
                    0 < p,
            ;
            assert(0 <= j * w * p) by (nonlinear_arith)
                requires
                    0 <= j,
                    0 <= w,
                    0 < p,
            ;
            assert(damage::pixel_offset(width, rect.x + i, rect.y + j) == damage::pixel_offset(
                width,
                rect.x as int,
                rect.y + j,
            ) + i * 4);
            if j == rows - 1 {
                assert(all.subrange(at, at + p) =~= last.subrange(i * p, i * p + p));
            } else {
                assert(all.subrange(at, at + p) =~= above.subrange(at, at + p));
            }
        }
    } else {
        assert(0 * w * p == 0) by (nonlinear_arith);
    }
}

/// A rectangle that lies in the frame takes `width * height` times the bytes
/// of one pixel.
pub proof fn law_encoded_len(fmt: VncPixelFormat, bgra: Seq<u8>, width: int, rect: Rect)
    requires
        0 <= width,
        rect_in_frame(bgra.len() as int, width, rect),
    ensures
        fmt.encoded_rect(bgra, width, rect).len() == rect.width * rect.height
            * fmt.bytes_per_pixel(),
        fmt.bytes_per_pixel() == if fmt.bpp < 8 {
            1
        } else {
            fmt.bpp as int / 8
        },
{
    lemma_rows_pixels(fmt, bgra, width, rect, rect.height as int, 0, 0);
    assert(rect.height * rect.width == rect.width * rect.height) by (nonlinear_arith);
}

/// The pixels of a rectangle are sent row by row, each in its place: the
/// pixel in column `i` and row `j` of the rectangle is the one that stands
/// there in the frame.
pub proof fn law_encoded_pixels(
    fmt: VncPixelFormat,
    bgra: Seq<u8>,
    width: int,
    rect: Rect,
    i: int,
    j: int,
)
    requires
        0 <= width,
        0 <= i < rect.width,
        0 <= j < rect.height,
        rect_in_frame(bgra.len() as int, width, rect),
    ensures
        ({
            let at = (j * rect.width + i) * fmt.bytes_per_pixel();
            &&& 0 <= at
            &&& at + fmt.bytes_per_pixel() <= fmt.encoded_rect(bgra, width, rect).len()
            &&& fmt.encoded_rect(bgra, width, rect).subrange(at, at + fmt.bytes_per_pixel())
                == fmt.encoded_pixel(bgra, damage::pixel_offset(width, rect.x + i, rect.y + j))
        }),
{
    lemma_rows_pixels(fmt, bgra, width, rect, rect.height as int, i, j);
}

/// How many values `n` bytes can hold.
pub open spec fn capacity(n: int) -> int
    decreases n,
{
    if n <= 0 {
        1
    } else {
        0x100 * capacity(n - 1)
    }
}

/// The number that bytes hold, least significant byte first.
pub open spec fn little_endian(b: Seq<u8>) -> int
    decreases b.len(),
{
    if b.len() == 0 {
        0
    } else {
        b[0] + 0x100 * little_endian(b.skip(1))
    }
}

/// Whether a colour's greatest value is all ones in binary.
pub open spec fn is_mask(max: u16) -> bool {
    (max as u32) & ((max + 1) as u32) == 0
}

impl VncPixelFormat {
    /// The bits that a colour takes up.
    pub open spec fn field(max: u16, shift: u8) -> u32 {
        (max as u32) << shift
    }

    /// Whether the three colours have bits of their own in a pixel, as clients'
    /// formats do: each takes a run of bits, which is not cut off, no two share
    /// one, and the pixel has room for all of them.
    pub open spec fn separates_colours(self) -> bool {
        let r = VncPixelFormat::field(self.r_max, self.r_shift);
        let g = VncPixelFormat::field(self.g_max, self.g_shift);
        let b = VncPixelFormat::field(self.b_max, self.b_shift);
        &&& self.convertible()
        &&& is_mask(self.r_max) && r >> self.r_shift == self.r_max
        &&& is_mask(self.g_max) && g >> self.g_shift == self.g_max
        &&& is_mask(self.b_max) && b >> self.b_shift == self.b_max
        &&& r & g == 0 && g & b == 0 && b & r == 0
        &&& (r | g | b) < capacity(self.bytes_per_pixel())
    }

    /// The number that a client reads out of the bytes of a pixel.
    pub open spec fn read_value(self, pixel: Seq<u8>) -> int {
        little_endian(
            if self.big_endian {
                pixel.reverse()
            } else {
                pixel
            },
        )
    }
}

/// The low bytes of a number, least significant first.
spec fn low_bytes(v: u64, n: int) -> Seq<u8> {
    Seq::new(n as nat, |i: int| (v >> (8 * i) as u64) as u8)
}

/// The low bytes of a number that fits in them hold the number.
proof fn lemma_low_bytes(v: u64, n: int)
    requires
        0 <= n <= 8,
        v < capacity(n),
    ensures
        little_endian(low_bytes(v, n)) == v,
    decreases n,
{
    if n > 0 {
        let all = low_bytes(v, n);
        let rest: u64 = v / 0x100;
        assert(v >> 8u64 == v / 0x100) by (bit_vector);
        assert((v >> 0u64) as u8 == v % 0x100) by (bit_vector);
        assert(all[0] == (v >> ((8 * 0int) as u64)) as u8);
        assert(all.skip(1) =~= low_bytes(rest, n - 1)) by {
            assert forall|i: int| 0 <= i < n - 1 implies all.skip(1)[i] == low_bytes(
                rest,
                n - 1,
            )[i] by {
                let k: u64 = (8 * i) as u64;
                let m: u64 = (8 * (i + 1)) as u64;
                assert(v >> m == (v >> 8u64) >> k) by (bit_vector)
                    requires
                        m == k + 8,
                        m < 64,
                ;
            }
        }
        lemma_low_bytes(rest, n - 1);
    }
}

/// A colour takes only bits of its field.
proof fn lemma_colour_in_field(c: u32, max: u32, shift: u8)
    requires
        c <= max <= 0xffff,
        max & ((max + 1) as u32) == 0,
        shift < 32,
    ensures
        c & max == c,
        (c << shift) & (max << shift) == c << shift,
{
    assert(c & max == c) by (bit_vector)
        requires
            c <= max && max <= 0xffff,
            max & ((max + 1) as u32) == 0,
    ;
    assert((c << shift) & (max << shift) == c << shift) by (bit_vector)
        requires
            c & max == c,
            shift < 32,
    ;
}

/// Numbers in fields that share no bit can be told apart in their union.
proof fn lemma_fields_apart(a: u32, b: u32, c: u32, fa: u32, fb: u32, fc: u32)
    requires
        a & fa == a,
        b & fb == b,
        c & fc == c,
        fa & fb == 0,
        fb & fc == 0,
        fc & fa == 0,
    ensures
        (a | b | c) & fa == a,
        (a | b | c) & fb == b,
        (a | b | c) & fc == c,
        (a | b | c) <= (fa | fb | fc),
{
    assert((a | b | c) & fa == a && (a | b | c) & fb == b && (a | b | c) & fc == c && (a | b | c)
        <= (fa | fb | fc)) by (bit_vector)
        requires
            a & fa == a,
            b & fb == b,
            c & fc == c,
            fa & fb == 0,
            fb & fc == 0,
            fc & fa == 0,
    ;
}

/// A colour whose bits a pixel holds can be read out of it.
proof fn lemma_colour_read(v: u32, c: u32, max: u32, shift: u8)
    requires
        v & (max << shift) == c << shift,
        (max << shift) >> shift == max,
        c & max == c,
        shift < 32,
    ensures
        (v >> shift) & max == c,
{
    assert((v >> shift) & max == c) by (bit_vector)
        requires
            v & (max << shift) == c << shift,
            (max << shift) >> shift == max,
            c & max == c,
            shift < 32,
    ;
}

/// A client reads the colours back: in a format that separates them, the number
/// in a pixel's bytes has each colour, on the format's scale, at its shift.
pub proof fn law_colours_read_back(fmt: VncPixelFormat, r: u8, g: u8, b: u8)
    requires
        fmt.separates_colours(),
    ensures
        fmt.read_value(fmt.converted(r, g, b)) == fmt.value(r, g, b),
        (fmt.value(r, g, b) >> fmt.r_shift) & (fmt.r_max as u32) == scaled(r, fmt.r_max),
        (fmt.value(r, g, b) >> fmt.g_shift) & (fmt.g_max as u32) == scaled(g, fmt.g_max),
        (fmt.value(r, g, b) >> fmt.b_shift) & (fmt.b_max as u32) == scaled(b, fmt.b_max),
{
    law_scaled(r, r, fmt.r_max);
    law_scaled(g, g, fmt.g_max);
    law_scaled(b, b, fmt.b_max);
    let rc = scaled(r, fmt.r_max) as u32;
    let gc = scaled(g, fmt.g_max) as u32;
    let bc = scaled(b, fmt.b_max) as u32;
    lemma_colour_in_field(rc, fmt.r_max as u32, fmt.r_shift);
    lemma_colour_in_field(gc, fmt.g_max as u32, fmt.g_shift);
    lemma_colour_in_field(bc, fmt.b_max as u32, fmt.b_shift);
    lemma_fields_apart(
        rc << fmt.r_shift,
        gc << fmt.g_shift,
        bc << fmt.b_shift,
        VncPixelFormat::field(fmt.r_max, fmt.r_shift),
        VncPixelFormat::field(fmt.g_max, fmt.g_shift),
        VncPixelFormat::field(fmt.b_max, fmt.b_shift),
    );
    lemma_colour_read(fmt.value(r, g, b), rc, fmt.r_max as u32, fmt.r_shift);
    lemma_colour_read(fmt.value(r, g, b), gc, fmt.g_max as u32, fmt.g_shift);
    lemma_colour_read(fmt.value(r, g, b), bc, fmt.b_max as u32, fmt.b_shift);
    let n = fmt.bytes_per_pixel();
    let v = fmt.value(r, g, b) as u64;
    lemma_low_bytes(v, n);
    let pixel = fmt.converted(r, g, b);
    if fmt.big_endian {
        assert(pixel.reverse() =~= low_bytes(v, n));
    } else {
        assert(pixel =~= low_bytes(v, n));
    }
}

/// Where a pixel of a rectangle stands in its frame and in its encoding.
proof fn lemma_pixel_places(
    fmt: VncPixelFormat,
    bgra: Seq<u8>,
    width: int,
    rect: Rect,
    i: int,
    j: int,
)
    requires
        0 <= width,
        0 <= i < rect.width,
        0 <= j < rect.height,
        rect_in_frame(bgra.len() as int, width, rect),
    ensures
        ({
            let n = fmt.bytes_per_pixel();
            let at = (j * rect.width + i) * n;
            let from = ((rect.y + j) * width + rect.x + i) * 4;
            &&& 0 <= at && at + n <= fmt.encoded_rect(bgra, width, rect).len()
            &&& 0 <= from && from + 4 <= bgra.len()
            &&& fmt.encoded_rect(bgra, width, rect).subrange(at, at + n) == fmt.encoded_pixel(
                bgra,
                from,
            )
        }),
{
    law_encoded_pixels(fmt, bgra, width, rect, i, j);
    lemma_row_fits(width, rect, j);
    assert(damage::pixel_offset(width, rect.x + i, rect.y + j) == ((rect.y + j) * width + rect.x
        + i) * 4);
}

/// In the frame's own layout the bytes of a rectangle are the frame's: byte `k`
/// of the pixel in column `i` and row `j` of the rectangle is byte `k` of the
/// pixel in column `rect.x + i` and row `rect.y + j` of the frame.
pub proof fn law_native_bytes(bgra: Seq<u8>, width: int, rect: Rect, i: int, j: int, k: int)
    requires
        0 <= width,
        0 <= i < rect.width,
        0 <= j < rect.height,
        0 <= k < 4,
        rect_in_frame(bgra.len() as int, width, rect),
    ensures
        ({
            let encoded = VncPixelFormat::spec_native().encoded_rect(bgra, width, rect);
            &&& encoded.len() == rect.width * rect.height * 4
            &&& encoded[(j * rect.width + i) * 4 + k] == bgra[((rect.y + j) * width + rect.x + i)
                * 4 + k]
        }),
{
    let fmt = VncPixelFormat::spec_native();
    let encoded = fmt.encoded_rect(bgra, width, rect);
    let at = (j * rect.width + i) * 4;
    let from = ((rect.y + j) * width + rect.x + i) * 4;
    law_encoded_len(fmt, bgra, width, rect);
    lemma_pixel_places(fmt, bgra, width, rect, i, j);
    assert(encoded.subrange(at, at + 4)[k] == encoded[at + k]);
    assert(bgra.subrange(from, from + 4)[k] == bgra[from + k]);
}

/// Whether a colour of 0 to 255, brought to the scale of 0 to `max` and moved up
/// by `shift` bits, has bit `p`.
pub open spec fn colour_has_bit(colour: u8, max: u16, shift: u8, p: int) -> bool {
    shift <= p && (((colour * max) / 255) as u32 >> ((p - shift) as u32)) & 1 == 1
}

/// Bit `p` of a shifted number is bit `p - shift` of the number.
proof fn lemma_shifted_bit(c: u32, shift: u8, p: u32)
    requires
        shift < 32,
        p < 32,
    ensures
        ((c << shift) >> p) & 1 == 1 <==> shift <= p && (c >> ((p - shift) as u32)) & 1 == 1,
{
    if shift <= p {
        let d: u32 = (p - shift) as u32;
        assert(((c << shift) >> p) & 1 == (c >> d) & 1) by (bit_vector)
            requires
                shift < 32,
                p < 32,
                d == p - shift,
        ;
    } else {
        assert(((c << shift) >> p) & 1 == 0) by (bit_vector)
            requires
                shift < 32,
                p < shift,
        ;
    }
}

/// Bit `p` of a wide number is bit `p % 8` of its byte `p / 8`.
proof fn lemma_byte_bit(v: u32, p: int)
    requires
        0 <= p < 64,
    ensures
        ((((v as u64) >> ((8 * (p / 8)) as u64)) as u8) >> ((p % 8) as u8)) & 1 == 1 <==> p < 32
            && (v >> (p as u32)) & 1 == 1,
{
    let wide = v as u64;
    let byte = (8 * (p / 8)) as u64;
    let within = (p % 8) as u8;
    let all = p as u64;
    assert((((wide >> byte) as u8) >> within) & 1 == 1 <==> (wide >> all) & 1 == 1) by (bit_vector)
        requires
            all == byte + within,
            all < 64,
            within < 8,
    ;
    if p < 32 {
        let narrow = p as u32;
        assert((wide >> all) & 1 == 1 <==> (v >> narrow) & 1 == 1) by (bit_vector)
            requires
                wide == v as u64,
                all == narrow as u64,
                narrow < 32,
        ;
    } else {
        assert((wide >> all) & 1 == 0) by (bit_vector)
            requires
                wide == v as u64,
                32 <= all,
                all < 64,
        ;
    }
}

/// Every bit of a converted pixel, in every format. A pixel is a number of as
/// many bytes as the format says, in its byte order; bit `p` of the number is
/// set exactly if one of the colours of the frame's pixel, which are blue,
/// green and red, has that bit on the format's scale and at its shift.
pub proof fn law_converted_bits(
    fmt: VncPixelFormat,
    bgra: Seq<u8>,
    width: int,
    rect: Rect,
    i: int,
    j: int,
    p: int,
)
    requires
        0 <= width,
        0 <= i < rect.width,
        0 <= j < rect.height,
        rect_in_frame(bgra.len() as int, width, rect),
        fmt != VncPixelFormat::spec_native(),
        fmt.r_shift < 32 && fmt.g_shift < 32 && fmt.b_shift < 32 && fmt.bpp < 72,
        0 <= p < 8 * (if fmt.bpp < 8 {
            1
        } else {
            fmt.bpp as int / 8
        }),
    ensures
        ({
            let n = if fmt.bpp < 8 {
                1
            } else {
                fmt.bpp as int / 8
            };
            let byte = if fmt.big_endian {
                n - 1 - p / 8
            } else {
                p / 8
            };
            let from = ((rect.y + j) * width + rect.x + i) * 4;
            let sent = fmt.encoded_rect(bgra, width, rect)[(j * rect.width + i) * n + byte];
            (sent >> ((p % 8) as u8)) & 1 == 1 <==> p < 32 && {
                ||| colour_has_bit(bgra[from], fmt.b_max, fmt.b_shift, p)
                ||| colour_has_bit(bgra[from + 1], fmt.g_max, fmt.g_shift, p)
                ||| colour_has_bit(bgra[from + 2], fmt.r_max, fmt.r_shift, p)
            }
        }),
{
    let n = fmt.bytes_per_pixel();
    let at = (j * rect.width + i) * n;
    let from = ((rect.y + j) * width + rect.x + i) * 4;
    let byte = if fmt.big_endian {
        n - 1 - p / 8
    } else {
        p / 8
    };
    let encoded = fmt.encoded_rect(bgra, width, rect);
    lemma_pixel_places(fmt, bgra, width, rect, i, j);
    assert(encoded.subrange(at, at + n)[byte] == encoded[at + byte]);
    let (b, g, r) = (bgra[from], bgra[from + 1], bgra[from + 2]);
    law_scaled(r, r, fmt.r_max);
    law_scaled(g, g, fmt.g_max);
    law_scaled(b, b, fmt.b_max);
    let v = fmt.value(r, g, b);
    assert(encoded[at + byte] == ((v as u64) >> ((8 * (p / 8)) as u64)) as u8);
    lemma_byte_bit(v, p);
    if p < 32 {
        let q = p as u32;
        let rf = (scaled(r, fmt.r_max) as u32) << fmt.r_shift;
        let gf = (scaled(g, fmt.g_max) as u32) << fmt.g_shift;
        let bf = (scaled(b, fmt.b_max) as u32) << fmt.b_shift;
        lemma_shifted_bit(scaled(r, fmt.r_max) as u32, fmt.r_shift, q);
        lemma_shifted_bit(scaled(g, fmt.g_max) as u32, fmt.g_shift, q);
        lemma_shifted_bit(scaled(b, fmt.b_max) as u32, fmt.b_shift, q);
        assert(((rf | gf | bf) >> q) & 1 == 1 <==> (rf >> q) & 1 == 1 || (gf >> q) & 1 == 1 || (bf
            >> q) & 1 == 1) by (bit_vector);
    }
}

/// The number in four bytes of the frame's own layout has each colour in its
/// place.
proof fn lemma_native_number(pixel: Seq<u8>)
    requires
        pixel.len() == 4,
    ensures
        0 <= little_endian(pixel) <= u32::MAX,
        ((little_endian(pixel) as u32) >> 16u8) & 255 == pixel[2],
        ((little_endian(pixel) as u32) >> 8u8) & 255 == pixel[1],
        ((little_endian(pixel) as u32) >> 0u8) & 255 == pixel[0],
{
    reveal_with_fuel(little_endian, 5);
    let (b, g, r, x) = (pixel[0], pixel[1], pixel[2], pixel[3]);
    assert(pixel.skip(1)[0] == g);
    assert(pixel.skip(1).skip(1)[0] == r);
    assert(pixel.skip(1).skip(1).skip(1)[0] == x);
    assert(little_endian(pixel) == b + 0x100 * (g + 0x100 * (r + 0x100 * x)));
    let v = little_endian(pixel) as u32;
    assert((v >> 16u8) & 255 == r && (v >> 8u8) & 255 == g && (v >> 0u8) & 255 == b)
        by (bit_vector)
        requires
            v == b + 0x100 * g + 0x1_0000 * r + 0x100_0000 * x,
    ;
}

/// A client sees the frame's colours: in every format that separates colours,
/// the frame's own included, the number that it reads out of the bytes of a
/// pixel has at the format's shifts the red, the green and the blue of that
/// pixel of the frame, on the format's scale.
pub proof fn law_colours_of_frame(
    fmt: VncPixelFormat,
    bgra: Seq<u8>,
    width: int,
    rect: Rect,
    i: int,
    j: int,
)
    requires
        0 <= width,
        0 <= i < rect.width,
        0 <= j < rect.height,
        rect_in_frame(bgra.len() as int, width, rect),
        fmt.separates_colours(),
    ensures
        ({
            let n = if fmt.bpp < 8 {
                1
            } else {
                fmt.bpp as int / 8
            };
            let at = (j * rect.width + i) * n;
            let from = ((rect.y + j) * width + rect.x + i) * 4;
            let v = fmt.read_value(fmt.encoded_rect(bgra, width, rect).subrange(at, at + n));
            &&& 0 <= v <= u32::MAX
            &&& ((v as u32) >> fmt.r_shift) & (fmt.r_max as u32) == (bgra[from + 2] * fmt.r_max)
                / 255
            &&& ((v as u32) >> fmt.g_shift) & (fmt.g_max as u32) == (bgra[from + 1] * fmt.g_max)
                / 255
            &&& ((v as u32) >> fmt.b_shift) & (fmt.b_max as u32) == (bgra[from] * fmt.b_max) / 255
        }),
{
    let n = fmt.bytes_per_pixel();
    let at = (j * rect.width + i) * n;
    let from = ((rect.y + j) * width + rect.x + i) * 4;
    lemma_pixel_places(fmt, bgra, width, rect, i, j);
    if fmt == VncPixelFormat::spec_native() {
        let pixel = bgra.subrange(from, from + 4);
        assert(pixel[0] == bgra[from] && pixel[1] == bgra[from + 1] && pixel[2] == bgra[from + 2]);
        lemma_native_number(pixel);
    } else {
        law_colours_read_back(fmt, bgra[from + 2], bgra[from + 1], bgra[from]);
    }
}

/// A PIXEL_FORMAT structure is read for what was written into it: the size of a
/// pixel, its byte order, and the scale and the place of each colour.
pub proof fn law_format_round_trip(
    fmt: VncPixelFormat,
    depth: u8,
    order: u8,
    true_colour: u8,
    padding: Seq<u8>,
)
    requires
        fmt.big_endian == (order != 0),
        padding.len() == 3,
    ensures
        VncPixelFormat::spec_parse(
            seq![fmt.bpp, depth, order, true_colour] + bytes::be16_bytes(fmt.r_max)
                + bytes::be16_bytes(fmt.g_max) + bytes::be16_bytes(fmt.b_max) + seq![
                fmt.r_shift,
                fmt.g_shift,
                fmt.b_shift,
            ] + padding,
        ) == fmt,
{
    bytes::law_be16_round_trip(fmt.r_max, 0, 0);
    bytes::law_be16_round_trip(fmt.g_max, 0, 0);
    bytes::law_be16_round_trip(fmt.b_max, 0, 0);
}

/// What can be encoded: a rectangle whose last row ends within the frame, in
/// the frame's own layout or in one with shifts below 32 and at most eight bytes
/// to a pixel, where the bytes fit in memory. Any such rectangle can be.
pub proof fn law_encodable(len: int, width: int, rect: Rect, fmt: VncPixelFormat)
    ensures
        encodable(len, width, rect, fmt) <==> {
            &&& rect.height > 0 ==> ((rect.y + rect.height - 1) * width + rect.x + rect.width) * 4
                <= len
            &&& rect.width > 0 && rect.height > 0 && fmt != VncPixelFormat::spec_native()
                ==> fmt.r_shift < 32 && fmt.g_shift < 32 && fmt.b_shift < 32 && fmt.bpp < 72
            &&& rect.width * rect.height * (if fmt.bpp < 8 {
                1
            } else {
                fmt.bpp as int / 8
            }) <= isize::MAX
        },
{
}

} // verus!
