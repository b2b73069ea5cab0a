//! Preparing camera frames for the detectors: from an NV21 preview buffer or
//! from a locked RGBA bitmap to an oriented gray image.
use vstd::prelude::*;
use crate::gray::{Gray, GrayImage, rgba_to_gray, rgb_luma, nearest_resized, gray_from_rgba, gray_from_fn, lemma_gray_from_fn_at, lemma_front_camera_orientation};
use crate::yuv::gray_pixel;
use crate::yuv::{decode_yuv420sp, frame_dims_ok, frame_len_needed, gray_frame};

verus! {

/// Android bitmap format code of 32-bit RGBA pixels (`ANDROID_BITMAP_FORMAT_RGBA_8888`).
pub const ANDROID_BITMAP_FORMAT_RGBA_8888: i32 = 1;

/// Why a bitmap cannot be turned into a frame.
#[derive(Debug, Clone, Copy, PartialEq, Eq, Structural)]
pub enum FrameError {
    /// The bitmap is not RGBA_8888.
    UnsupportedFormat,
    /// The pixel buffer is too short for the bitmap's dimensions.
    UnreadableImage,
}

/// The gray frame decoded from an NV21 buffer of `width` x `height` pixels.
pub open spec fn yuv_gray(data: Seq<u8>, width: i32, height: i32) -> Gray {
    Gray { width: width as u32, height: height as u32, pixels: gray_frame(data, width as int, height as int) }
}

/// Decodes an NV21 preview frame to gray and orients it by `rotation_degrees`.
/// The decoded bytes become a `width` x `height` image (each side taken as
/// a `u32`); `None` when they do not cover it, which happens exactly when
/// both sides are negative.
pub fn frame_from_yuv420sp(data: &[u8], width: i32, height: i32, rotation_degrees: i32) -> (frame: Option<GrayImage>)
    requires
        frame_dims_ok(width as int, height as int),
        data@.len() >= frame_len_needed(width as int, height as int),
    ensures
        frame is Some <==> yuv_gray(data@, width, height).wf(),
        frame is Some <==> !(width < 0 && height < 0),
        frame matches Some(f) ==> f@ == yuv_gray(data@, width, height).oriented(rotation_degrees),
{
    let gray = decode_yuv420sp(data, width, height);
    let w: u32 = #[verifier::truncate] (width as u32);
    let h: u32 = #[verifier::truncate] (height as u32);
    proof {
        assert(width < 0 ==> w >= 0x8000_0000) by (bit_vector)
            requires
                w == width as u32,
        ;
        assert(height < 0 ==> h >= 0x8000_0000) by (bit_vector)
            requires
                h == height as u32,
        ;
        assert(width >= 0 ==> w == width) by (bit_vector)
            requires
                w == width as u32,
        ;
        assert(height >= 0 ==> h == height) by (bit_vector)
            requires
                h == height as u32,
        ;
        if width < 0 && height < 0 {
            vstd::arithmetic::mul::lemma_mul_inequality(0x8000_0000, w as int, h as int);
            vstd::arithmetic::mul::lemma_mul_inequality(0x8000_0000, h as int, 0x8000_0000);
        } else if width == 0 || height == 0 {
            assert(w * h == 0) by (nonlinear_arith)
                requires
                    w == 0 || h == 0,
            ;
        } else {
            assert(width > 0 && height > 0) by (nonlinear_arith)
                requires
                    width * height >= 0,
                    width != 0,
                    height != 0,
                    !(width < 0 && height < 0),
            ;
        }
    }
    match GrayImage::from_raw(w, h, gray) {
        Some(img) => Some(img.orient(rotation_degrees)),
        None => None,
    }
}

/// The gray frame of a locked bitmap, oriented: refused when the bitmap is
/// not RGBA_8888 (checked first) or its buffer is too short.
pub open spec fn spec_bitmap_frame(
    format: i32,
    width: u32,
    height: u32,
    rgba: Seq<u8>,
    rotation_degrees: i32,
) -> Result<Gray, FrameError> {
    if format != ANDROID_BITMAP_FORMAT_RGBA_8888 {
        Err(FrameError::UnsupportedFormat)
    } else if 4 * (width * height) > rgba.len() {
        Err(FrameError::UnreadableImage)
    } else {
        Ok(rgba_to_gray(width, height, rgba).oriented(rotation_degrees))
    }
}

/// Turns a locked bitmap (format code, dimensions, pixel bytes) into a gray
/// frame oriented by `rotation_degrees`.
pub fn frame_from_bitmap(format: i32, width: u32, height: u32, rgba: Vec<u8>, rotation_degrees: i32) -> (frame: Result<GrayImage, FrameError>)
    ensures
        match frame {
            Ok(f) => spec_bitmap_frame(format, width, height, rgba@, rotation_degrees) == Ok::<Gray, FrameError>(f@),
            Err(e) => spec_bitmap_frame(format, width, height, rgba@, rotation_degrees) == Err::<Gray, FrameError>(e),
        },
{
    if format != ANDROID_BITMAP_FORMAT_RGBA_8888 {
        return Err(FrameError::UnsupportedFormat);
    }
    match gray_from_rgba(width, height, rgba) {
        Some(img) => Ok(img.orient(rotation_degrees)),
        None => Err(FrameError::UnreadableImage),
    }
}

/// The frame a face detection runs on: the bitmap turned gray, then, when a
/// target size is given, resized to it with nearest-neighbour sampling.
pub open spec fn spec_detection_frame(
    format: i32,
    width: u32,
    height: u32,
    rgba: Seq<u8>,
    target: Option<(u32, u32)>,
) -> Result<Gray, FrameError> {
    match spec_bitmap_frame(format, width, height, rgba, 0) {
        Err(e) => Err(e),
        Ok(g) => match target {
            None => Ok(g),
            Some((w, h)) => Ok(Gray { width: w, height: h, pixels: nearest_resized(g.pixels, width, height, w, h) }),
        },
    }
}

/// Prepares a bitmap for face detection: gray conversion, then an optional
/// nearest-neighbour resize to `target` (width, height). A target may only
/// have an empty side where the bitmap has one.
pub fn detection_frame(format: i32, width: u32, height: u32, rgba: Vec<u8>, target: Option<(u32, u32)>) -> (frame: Result<GrayImage, FrameError>)
    requires
        target matches Some((w, h)) ==> (width > 0 || w == 0) && (height > 0 || h == 0),
    ensures
        match frame {
            Ok(f) => spec_detection_frame(format, width, height, rgba@, target) == Ok::<Gray, FrameError>(f@) && f@.exact(),
            Err(e) => spec_detection_frame(format, width, height, rgba@, target) == Err::<Gray, FrameError>(e),
        },
{
    let gray = frame_from_bitmap(format, width, height, rgba, 0)?;
    match target {
        None => {
            proof {
                assert(rgba_to_gray(width, height, rgba@).exact());
            }
            Ok(gray)
        },
        Some((w, h)) => Ok(gray.resize_nearest(w, h)),
    }
}

/// Pixel `(x, y)` of the gray image of an RGBA buffer is the gray level of
/// the buffer's pixel `y * width + x`.
pub proof fn lemma_rgba_gray_at(width: u32, height: u32, rgba: Seq<u8>, x: int, y: int)
    requires
        0 <= x < width,
        0 <= y < height,
    ensures
        0 <= y * width + x < width * height,
        rgba_to_gray(width, height, rgba).at(x, y) == rgb_luma(
            rgba[4 * (y * width + x)],
            rgba[4 * (y * width + x) + 1],
            rgba[4 * (y * width + x) + 2],
        ),
{
    vstd::arithmetic::mul::lemma_mul_inequality(y, height - 1, width as int);
    assert((height - 1) * width == width * height - width) by (nonlinear_arith);
}

/// A bitmap frame for a camera held at 180 degrees: an RGBA_8888 bitmap whose
/// buffer covers it gives a frame of the bitmap's size, turned a half turn:
/// its pixel `(x, y)` is the gray of bitmap pixel `(w - 1 - x, h - 1 - y)`.
pub proof fn lemma_bitmap_frame_half_turn(width: u32, height: u32, rgba: Seq<u8>)
    requires
        4 * (width * height) <= rgba.len(),
    ensures
        spec_bitmap_frame(ANDROID_BITMAP_FORMAT_RGBA_8888, width, height, rgba, 180) == Ok::<Gray, FrameError>(
            rgba_to_gray(width, height, rgba).rotated180(),
        ),
        spec_bitmap_frame(ANDROID_BITMAP_FORMAT_RGBA_8888, width, height, rgba, 180) matches Ok(g) && {
            &&& g.width == width
            &&& g.height == height
            &&& forall|x: int, y: int|
                0 <= x < width && 0 <= y < height ==> #[trigger] g.at(x, y) == rgb_luma(
                    rgba[4 * ((height - 1 - y) * width + (width - 1 - x))],
                    rgba[4 * ((height - 1 - y) * width + (width - 1 - x)) + 1],
                    rgba[4 * ((height - 1 - y) * width + (width - 1 - x)) + 2],
                )
        },
{
    let src = rgba_to_gray(width, height, rgba);
    let g = src.rotated180();
    assert forall|x: int, y: int| 0 <= x < width && 0 <= y < height implies #[trigger] g.at(x, y) == rgb_luma(
        rgba[4 * ((height - 1 - y) * width + (width - 1 - x))],
        rgba[4 * ((height - 1 - y) * width + (width - 1 - x)) + 1],
        rgba[4 * ((height - 1 - y) * width + (width - 1 - x)) + 2],
    ) by {
        lemma_gray_from_fn_at(width, height, |x: int, y: int| src.at(width - 1 - x, height - 1 - y), x, y);
        lemma_rgba_gray_at(width, height, rgba, width - 1 - x, height - 1 - y);
    }
}

/// A bitmap frame for a camera held at 90 degrees is turned a quarter turn
/// clockwise: it is `h` wide and `w` high, and its pixel `(x, y)` is the gray
/// of bitmap pixel `(y, h - 1 - x)`.
pub proof fn lemma_bitmap_frame_quarter_turn(width: u32, height: u32, rgba: Seq<u8>)
    requires
        4 * (width * height) <= rgba.len(),
    ensures
        spec_bitmap_frame(ANDROID_BITMAP_FORMAT_RGBA_8888, width, height, rgba, 90) matches Ok(g) && {
            &&& g.width == height
            &&& g.height == width
            &&& forall|x: int, y: int|
                0 <= x < height && 0 <= y < width ==> #[trigger] g.at(x, y) == rgb_luma(
                    rgba[4 * ((height - 1 - x) * width + y)],
                    rgba[4 * ((height - 1 - x) * width + y) + 1],
                    rgba[4 * ((height - 1 - x) * width + y) + 2],
                )
        },
{
    let src = rgba_to_gray(width, height, rgba);
    let g = src.rotated90();
    assert forall|x: int, y: int| 0 <= x < height && 0 <= y < width implies #[trigger] g.at(x, y) == rgb_luma(
        rgba[4 * ((height - 1 - x) * width + y)],
        rgba[4 * ((height - 1 - x) * width + y) + 1],
        rgba[4 * ((height - 1 - x) * width + y) + 2],
    ) by {
        lemma_gray_from_fn_at(height, width, |x: int, y: int| src.at(y, height - 1 - x), x, y);
        lemma_rgba_gray_at(width, height, rgba, y, height - 1 - x);
    }
}

/// A bitmap frame for the front camera (270 degrees) is mirrored across its
/// anti-diagonal: it is `h` wide and `w` high, and its pixel `(x, y)` is the
/// gray of bitmap pixel `(w - 1 - y, h - 1 - x)`.
pub proof fn lemma_bitmap_frame_front_camera(width: u32, height: u32, rgba: Seq<u8>)
    requires
        4 * (width * height) <= rgba.len(),
    ensures
        spec_bitmap_frame(ANDROID_BITMAP_FORMAT_RGBA_8888, width, height, rgba, 270) matches Ok(g) && {
            &&& g.width == height
            &&& g.height == width
            &&& forall|x: int, y: int|
                0 <= x < height && 0 <= y < width ==> #[trigger] g.at(x, y) == rgb_luma(
                    rgba[4 * ((height - 1 - x) * width + (width - 1 - y))],
                    rgba[4 * ((height - 1 - x) * width + (width - 1 - y)) + 1],
                    rgba[4 * ((height - 1 - x) * width + (width - 1 - y)) + 2],
                )
        },
{
    let src = rgba_to_gray(width, height, rgba);
    assert(src.wf());
    let g = src.oriented(270);
    assert forall|x: int, y: int| 0 <= x < height && 0 <= y < width implies #[trigger] g.at(x, y) == rgb_luma(
        rgba[4 * ((height - 1 - x) * width + (width - 1 - y))],
        rgba[4 * ((height - 1 - x) * width + (width - 1 - y)) + 1],
        rgba[4 * ((height - 1 - x) * width + (width - 1 - y)) + 2],
    ) by {
        lemma_front_camera_orientation(src, x, y);
        lemma_rgba_gray_at(width, height, rgba, width - 1 - y, height - 1 - x);
    }
}

/// At any other angle the bitmap frame is the gray bitmap as it is: same size,
/// pixel `k` the gray of RGBA pixel `k`.
pub proof fn lemma_bitmap_frame_upright(width: u32, height: u32, rgba: Seq<u8>, rotation_degrees: i32)
    requires
        4 * (width * height) <= rgba.len(),
        rotation_degrees != 90 && rotation_degrees != 180 && rotation_degrees != 270,
    ensures
        spec_bitmap_frame(ANDROID_BITMAP_FORMAT_RGBA_8888, width, height, rgba, rotation_degrees) matches Ok(g) && {
            &&& g.width == width
            &&& g.height == height
            &&& g.pixels.len() == width * height
            &&& forall|k: int|
                0 <= k < width * height ==> #[trigger] g.pixels[k] == rgb_luma(rgba[4 * k], rgba[4 * k + 1], rgba[4 * k + 2])
        },
{
}

/// Bitmaps in any other format, or whose buffer does not cover them, give no frame.
pub proof fn lemma_bitmap_frame_refusals(format: i32, width: u32, height: u32, rgba: Seq<u8>, rotation_degrees: i32)
    ensures
        format != 1 ==> spec_bitmap_frame(format, width, height, rgba, rotation_degrees)
            == Err::<Gray, FrameError>(FrameError::UnsupportedFormat),
        format == 1 && 4 * (width * height) > rgba.len() ==> spec_bitmap_frame(
            format,
            width,
            height,
            rgba,
            rotation_degrees,
        ) == Err::<Gray, FrameError>(FrameError::UnreadableImage),
{
}

/// The face-detection frame is never rotated: without a target size it is
/// the gray bitmap itself (pixel `k` the gray of RGBA pixel `k`); with one it
/// is the nearest-neighbour resize of that unrotated gray bitmap.
pub proof fn lemma_detection_frame_unrotated(width: u32, height: u32, rgba: Seq<u8>, target: Option<(u32, u32)>)
    requires
        4 * (width * height) <= rgba.len(),
    ensures
        target is None ==> (spec_detection_frame(ANDROID_BITMAP_FORMAT_RGBA_8888, width, height, rgba, target)
            matches Ok(g) && {
            &&& g.width == width
            &&& g.height == height
            &&& g.pixels.len() == width * height
            &&& forall|k: int|
                0 <= k < width * height ==> #[trigger] g.pixels[k] == rgb_luma(rgba[4 * k], rgba[4 * k + 1], rgba[4 * k + 2])
        }),
        target matches Some((w, h)) ==> spec_detection_frame(ANDROID_BITMAP_FORMAT_RGBA_8888, width, height, rgba, target)
            == Ok::<Gray, FrameError>(
            Gray {
                width: w,
                height: h,
                pixels: nearest_resized(
                    Seq::new((width * height) as nat, |k: int| rgb_luma(rgba[4 * k], rgba[4 * k + 1], rgba[4 * k + 2])),
                    width,
                    height,
                    w,
                    h,
                ),
            },
        ),
{
    assert(rgba_to_gray(width, height, rgba).pixels =~= Seq::new(
        (width * height) as nat,
        |k: int| rgb_luma(rgba[4 * k], rgba[4 * k + 1], rgba[4 * k + 2]),
    ));
}

/// An upright NV21 frame with positive sides keeps the camera's width and
/// height, and its pixel `(i, j)` is the decoded gray of column `i`, row `j`.
pub proof fn lemma_yuv_frame_upright(data: Seq<u8>, width: i32, height: i32)
    requires
        0 < width,
        0 < height,
        width * height <= i32::MAX,
    ensures
        yuv_gray(data, width, height).oriented(0).width == width,
        yuv_gray(data, width, height).oriented(0).height == height,
        yuv_gray(data, width, height).oriented(0).wf(),
        forall|i: int, j: int|
            0 <= i < width && 0 <= j < height ==> #[trigger] yuv_gray(data, width, height).oriented(0).at(i, j)
                == gray_pixel(data, width as int, height as int, i, j),
{
    let g = yuv_gray(data, width, height);
    assert forall|i: int, j: int| 0 <= i < width && 0 <= j < height implies #[trigger] g.oriented(0).at(i, j)
        == gray_pixel(data, width as int, height as int, i, j) by {
        vstd::arithmetic::mul::lemma_mul_inequality(j, height - 1, width as int);
        assert((height - 1) * width == width * height - width) by (nonlinear_arith);
        vstd::arithmetic::div_mod::lemma_fundamental_div_mod_converse(j * width + i, width as int, j, i);
    }
}

} // verus!
