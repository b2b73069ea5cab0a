//! Decoding of Android NV21 (YUV420SP) camera frames straight into 8-bit gray.
//!
//! A frame of `width * height` pixels stores one luma byte per pixel, followed
//! by interleaved chroma: for every 2x2 block one V byte and one U byte.
//! Each pixel goes through a fixed-point YUV -> RGB conversion (values kept on
//! 18 bits), and the gray value is `(2R + 7G + B) / 10` scaled back to 8 bits.
use vstd::prelude::*;
use vstd::arithmetic::div_mod::lemma_fundamental_div_mod_converse;
use vstd::arithmetic::mul::lemma_mul_inequality;

verus! {

/// Largest value a fixed-point color channel may take (18 bits).
pub open spec fn channel_max() -> int {
    262143
}

/// Clamps a fixed-point channel into `[0, 262143]`.
pub open spec fn clamp_channel(x: int) -> int {
    if x < 0 {
        0
    } else if x > channel_max() {
        channel_max()
    } else {
        x
    }
}

/// Luma with the video black level (16) removed, never negative.
pub open spec fn luma_offset(y: u8) -> int {
    if y < 16 {
        0
    } else {
        y - 16
    }
}

/// Fixed-point red channel of a pixel.
pub open spec fn red_of(y: u8, v: u8) -> int {
    clamp_channel(1192 * luma_offset(y) + 1634 * (v - 128))
}

/// Fixed-point green channel of a pixel.
pub open spec fn green_of(y: u8, u: u8, v: u8) -> int {
    clamp_channel(1192 * luma_offset(y) - 833 * (v - 128) - 400 * (u - 128))
}

/// Fixed-point blue channel of a pixel.
pub open spec fn blue_of(y: u8, u: u8) -> int {
    clamp_channel(1192 * luma_offset(y) + 2066 * (u - 128))
}

/// The 8-bit gray value of a pixel with luma `y` and chroma `u`, `v`.
pub open spec fn gray_of(y: u8, u: u8, v: u8) -> int {
    ((2 * red_of(y, v) + 7 * green_of(y, u, v) + blue_of(y, u)) / 10) / 1024
}

/// Index of the V byte of the chroma pair shared by pixel `(i, j)`
/// (column `i`, row `j`); the U byte follows it.
pub open spec fn chroma_index(width: int, height: int, i: int, j: int) -> int {
    width * height + (j / 2) * width + 2 * (i / 2)
}

/// The gray value of pixel `(i, j)` of an NV21 frame.
pub open spec fn gray_pixel(data: Seq<u8>, width: int, height: int, i: int, j: int) -> u8 {
    let c = chroma_index(width, height, i, j);
    gray_of(data[j * width + i], data[c + 1], data[c]) as u8
}

/// The decoded gray frame, row by row: entry `k` is pixel `(k % width, k / width)`.
/// When a side is not positive no pixel is decoded, and the frame is
/// `width * height` zero bytes (empty, or both sides negative).
pub open spec fn gray_frame(data: Seq<u8>, width: int, height: int) -> Seq<u8> {
    if width > 0 && height > 0 {
        Seq::new(
            (width * height) as nat,
            |k: int| gray_pixel(data, width, height, k % width, k / width),
        )
    } else {
        Seq::new((width * height) as nat, |k: int| 0u8)
    }
}

/// Dimensions that decoding accepts: a pixel count in `0..=i32::MAX`, and,
/// for a nonempty frame, every offset into it (luma plane plus the start of
/// the last chroma row) in `i32`.
pub open spec fn frame_dims_ok(width: int, height: int) -> bool {
    &&& 0 <= width * height <= i32::MAX
    &&& (width > 0 && height > 0) ==> width * height + ((height - 1) / 2) * width <= i32::MAX
}

/// The number of bytes decoding reads from an NV21 frame.
pub open spec fn frame_len_needed(width: int, height: int) -> int {
    if width <= 0 || height <= 0 {
        0
    } else {
        width * height + ((height - 1) / 2) * width + 2 * ((width + 1) / 2)
    }
}

proof fn lemma_gray_of_bounds(y: u8, u: u8, v: u8)
    ensures
        0 <= gray_of(y, u, v) <= 255,
{
    let s = 2 * red_of(y, v) + 7 * green_of(y, u, v) + blue_of(y, u);
    assert(0 <= s <= 10 * channel_max());
    assert(0 <= s / 10 <= channel_max());
    assert(0 <= (s / 10) / 1024 <= 255);
}

proof fn lemma_row_offsets(width: int, height: int, j: int)
    requires
        frame_dims_ok(width, height),
        0 < width,
        0 <= j < height,
    ensures
        0 <= j * width <= width * height - width,
        0 <= (j / 2) * width <= ((height - 1) / 2) * width,
{
    lemma_mul_inequality(j, height - 1, width);
    lemma_mul_inequality(j / 2, (height - 1) / 2, width);
    lemma_mul_inequality(0, j, width);
    lemma_mul_inequality(0, j / 2, width);
    assert((height - 1) * width == width * height - width) by (nonlinear_arith);
    assert(j * width == width * j) by (nonlinear_arith);
}

/// Gray value of one pixel from its luma byte and its chroma pair, the
/// chroma bytes already shifted by -128 (`u`, `v`).
fn pixel_gray(y_byte: u8, u: i32, v: i32) -> (value: u8)
    requires
        -128 <= u <= 127,
        -128 <= v <= 127,
    ensures
        value == gray_of(y_byte, (u + 128) as u8, (v + 128) as u8),
{
    let mut y: i32 = y_byte as i32 - 16;
    if y < 0 {
        y = 0;
    }
    let y1192: i32 = 1192 * y;
    let mut r: i32 = y1192 + 1634 * v;
    let mut g: i32 = y1192 - 833 * v - 400 * u;
    let mut b: i32 = y1192 + 2066 * u;
    if r < 0 {
        r = 0;
    } else if r > 262143 {
        r = 262143;
    }
    if g < 0 {
        g = 0;
    } else if g > 262143 {
        g = 262143;
    }
    if b < 0 {
        b = 0;
    } else if b > 262143 {
        b = 262143;
    }
    let color: i32 = (2 * r + 7 * g + b) / 10;
    proof {
        lemma_gray_of_bounds(y_byte, (u + 128) as u8, (v + 128) as u8);
    }
    (color / 1024) as u8
}

/// Decodes an NV21 (YUV420SP) frame into one gray byte per pixel, row by row.
pub fn decode_yuv420sp(data: &[u8], width: i32, height: i32) -> (gray: Vec<u8>)
    requires
        frame_dims_ok(width as int, height as int),
        data@.len() >= frame_len_needed(width as int, height as int),
    ensures
        gray@ == gray_frame(data@, width as int, height as int),
{
    let ghost w = width as int;
    let ghost h = height as int;
    let frame_size: i32 = width * height;
    let mut gray: Vec<u8> = Vec::new();
    if width <= 0 || height <= 0 {
        let mut k: i32 = 0;
        while k < frame_size
            invariant
                0 <= k <= frame_size,
                gray@.len() == k,
                forall|n: int| 0 <= n < k ==> gray@[n] == 0u8,
            decreases frame_size - k,
        {
            gray.push(0);
            k += 1;
        }
        assert(gray@ =~= gray_frame(data@, w, h));
        return gray;
    }
    let mut yp: usize = 0;
    let mut j: i32 = 0;
    while j < height
        invariant
            0 < w,
            0 < h,
            frame_dims_ok(w, h),
            w == width,
            h == height,
            frame_size == w * h,
            data@.len() >= frame_len_needed(w, h),
            0 <= j <= height,
            yp == j * w,
            gray@.len() == yp,
            forall|k: int| 0 <= k < yp ==> gray@[k] == gray_pixel(data@, w, h, k % w, k / w),
        decreases height - j,
    {
        proof {
            lemma_row_offsets(w, h, j as int);
        }
        let mut uvp: usize = (frame_size + (j / 2) * width) as usize;
        let mut u: i32 = 0;
        let mut v: i32 = 0;
        let mut i: i32 = 0;
        while i < width
            invariant
                0 < w,
                0 < h,
                frame_dims_ok(w, h),
                w == width,
                h == height,
                frame_size == w * h,
                data@.len() >= frame_len_needed(w, h),
                0 <= j < height,
                0 <= i <= width,
                0 <= j * w <= w * h - w,
                0 <= (j / 2) * w <= ((h - 1) / 2) * w,
                yp == j * w + i,
                gray@.len() == yp,
                uvp == w * h + (j / 2) * w + 2 * ((i + 1) / 2),
                i % 2 == 1 ==> v == data@[chroma_index(w, h, i as int, j as int)] - 128,
                i % 2 == 1 ==> u == data@[chroma_index(w, h, i as int, j as int) + 1] - 128,
                forall|k: int| 0 <= k < yp ==> gray@[k] == gray_pixel(data@, w, h, k % w, k / w),
            decreases width - i,
        {
            if i % 2 == 0 {
                v = data[uvp] as i32 - 128;
                uvp += 1;
                u = data[uvp] as i32 - 128;
                uvp += 1;
            }
            let value: u8 = pixel_gray(data[yp], u, v);
            proof {
                lemma_fundamental_div_mod_converse(yp as int, w, j as int, i as int);
            }
            gray.push(value);
            yp += 1;
            i += 1;
        }
        proof {
            assert((j + 1) * w == j * w + w) by (nonlinear_arith);
        }
        j += 1;
    }
    proof {
        assert(h * w == w * h) by (nonlinear_arith);
        assert(gray@ =~= gray_frame(data@, w, h));
    }
    gray
}

/// Whether an NV21 frame of `data_len` bytes and the given dimensions can be
/// decoded by [`decode_yuv420sp`].
pub fn frame_fits(data_len: usize, width: i32, height: i32) -> (fits: bool)
    ensures
        fits == (frame_dims_ok(width as int, height as int) && data_len >= frame_len_needed(
            width as int,
            height as int,
        )),
{
    let w: i64 = width as i64;
    let h: i64 = height as i64;
    assert(-0x4000_0000_0000_0000 <= w * h <= 0x4000_0000_0000_0000) by (nonlinear_arith)
        requires
            -0x8000_0000 <= w < 0x8000_0000,
            -0x8000_0000 <= h < 0x8000_0000,
    ;
    let frame_size: i64 = w * h;
    if frame_size < 0 || frame_size > i32::MAX as i64 {
        return false;
    }
    if width <= 0 || height <= 0 {
        return true;
    }
    assert(0 <= ((h - 1) / 2) * w <= 0x4000_0000_0000_0000) by (nonlinear_arith)
        requires
            0 < w < 0x8000_0000,
            0 < h < 0x8000_0000,
    ;
    if frame_size + ((h - 1) / 2) * w > i32::MAX as i64 {
        return false;
    }
    let needed: i64 = frame_size + ((h - 1) / 2) * w + 2 * ((w + 1) / 2);
    (data_len as u64) >= (needed as u64)
}

/// Decodes an NV21 frame when its dimensions and length allow it; `None` otherwise.
pub fn try_decode_yuv420sp(data: &[u8], width: i32, height: i32) -> (gray: Option<Vec<u8>>)
    ensures
        gray is Some <==> (frame_dims_ok(width as int, height as int) && data@.len()
            >= frame_len_needed(width as int, height as int)),
        gray matches Some(g) ==> g@ == gray_frame(data@, width as int, height as int),
{
    if frame_fits(data.len(), width, height) {
        Some(decode_yuv420sp(data, width, height))
    } else {
        None
    }
}

/// Brighter luma never gives a darker gray: for a fixed chroma pair the gray
/// value is monotone in the luma byte.
pub proof fn lemma_gray_monotone_in_luma(y1: u8, y2: u8, u: u8, v: u8)
    requires
        y1 <= y2,
    ensures
        gray_of(y1, u, v) <= gray_of(y2, u, v),
{
    let s1 = 2 * red_of(y1, v) + 7 * green_of(y1, u, v) + blue_of(y1, u);
    let s2 = 2 * red_of(y2, v) + 7 * green_of(y2, u, v) + blue_of(y2, u);
    assert(s1 <= s2);
    vstd::arithmetic::div_mod::lemma_div_is_ordered(s1, s2, 10);
    vstd::arithmetic::div_mod::lemma_div_is_ordered(s1 / 10, s2 / 10, 1024);
}

/// With neutral chroma (U = V = 128) the gray value depends on luma alone:
/// it is the black-level-corrected luma, scaled and clamped to 18 bits,
/// brought back to 8 bits.
pub proof fn lemma_gray_neutral_chroma(y: u8)
    ensures
        gray_of(y, 128, 128) == clamp_channel(1192 * luma_offset(y)) / 1024,
{
    let c = clamp_channel(1192 * luma_offset(y));
    assert(2 * c + 7 * c + c == 10 * c);
    assert((10 * c) / 10 == c);
}

} // verus!
