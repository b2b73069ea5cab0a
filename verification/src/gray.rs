//! Single-channel 8-bit images and the operations the detection pipeline
//! applies to them: building one from raw bytes, orienting it the way the
//! camera was held, turning an RGBA bitmap into gray, resizing, and JPEG
//! encoding. Pixel work is done by the `image` crate.
use image::ConvertBuffer;
use vstd::prelude::*;
use vstd::arithmetic::div_mod::lemma_fundamental_div_mod_converse;
use vstd::arithmetic::mul::lemma_mul_inequality;

verus! {

/// Mathematical view of a gray image: dimensions and the raw row-major buffer.
pub struct Gray {
    pub width: u32,
    pub height: u32,
    pub pixels: Seq<u8>,
}

impl Gray {
    /// Number of pixels.
    pub open spec fn area(self) -> int {
        self.width * self.height
    }

    /// The buffer holds at least one byte per pixel.
    pub open spec fn wf(self) -> bool {
        self.pixels.len() >= self.area()
    }

    /// The buffer holds exactly one byte per pixel.
    pub open spec fn exact(self) -> bool {
        self.pixels.len() == self.area()
    }

    /// Pixel in column `x`, row `y`.
    pub open spec fn at(self, x: int, y: int) -> u8 {
        self.pixels[y * self.width + x]
    }

    /// The image rotated a quarter turn clockwise.
    pub open spec fn rotated90(self) -> Gray {
        gray_from_fn(self.height, self.width, |x: int, y: int| self.at(y, self.height - 1 - x))
    }

    /// The image rotated a half turn.
    pub open spec fn rotated180(self) -> Gray {
        gray_from_fn(
            self.width,
            self.height,
            |x: int, y: int| self.at(self.width - 1 - x, self.height - 1 - y),
        )
    }

    /// The image rotated three quarter turns clockwise.
    pub open spec fn rotated270(self) -> Gray {
        gray_from_fn(self.height, self.width, |x: int, y: int| self.at(self.width - 1 - y, x))
    }

    /// The image mirrored left to right.
    pub open spec fn flipped_horizontally(self) -> Gray {
        gray_from_fn(self.width, self.height, |x: int, y: int| self.at(self.width - 1 - x, y))
    }

    /// The image as the detector is fed with it for a frame taken at
    /// `rotation_degrees`: rotated by 90 or 180 degrees, rotated by 270 and
    /// mirrored (front camera), or left as it is for any other angle.
    pub open spec fn oriented(self, rotation_degrees: i32) -> Gray {
        if rotation_degrees == 90 {
            self.rotated90()
        } else if rotation_degrees == 180 {
            self.rotated180()
        } else if rotation_degrees == 270 {
            self.rotated270().flipped_horizontally()
        } else {
            self
        }
    }
}

/// The `width` x `height` image whose pixel `(x, y)` is `f(x, y)`.
pub open spec fn gray_from_fn(width: u32, height: u32, f: spec_fn(int, int) -> u8) -> Gray {
    Gray {
        width,
        height,
        pixels: Seq::new((width * height) as nat, |k: int| f(k % (width as int), k / (width as int))),
    }
}

/// Reading pixel `(x, y)` of an image built from a function gives the function's value.
pub proof fn lemma_gray_from_fn_at(width: u32, height: u32, f: spec_fn(int, int) -> u8, x: int, y: int)
    requires
        0 <= x < width,
        0 <= y < height,
    ensures
        0 <= y * width + x < width * height,
        gray_from_fn(width, height, f).at(x, y) == f(x, y),
{
    lemma_mul_inequality(y, height - 1, width as int);
    assert((height - 1) * width == width * height - width) by (nonlinear_arith);
    lemma_fundamental_div_mod_converse(y * width + x, width as int, y, x);
}

/// Splitting a buffer index into column and row.
proof fn lemma_index_split(k: int, width: int, height: int)
    requires
        0 <= k < width * height,
        0 <= width,
        0 <= height,
    ensures
        width > 0,
        0 <= k % width < width,
        0 <= k / width < height,
        (k / width) * width + k % width == k,
{
    if width == 0 {
        assert(width * height == 0) by (nonlinear_arith)
            requires width == 0;
    }
    vstd::arithmetic::div_mod::lemma_fundamental_div_mod(k, width);
    vstd::arithmetic::div_mod::lemma_mod_bound(k, width);
    assert((k / width) * width == width * (k / width)) by (nonlinear_arith);
    let q = k / width;
    let r = k % width;
    assert(0 <= q < height) by (nonlinear_arith)
        requires
            k == width * q + r,
            0 <= r < width,
            0 <= k < width * height,
            width > 0,
    ;
}

/// Two images are the same when they have the same dimensions, exact
/// buffers, and agree on every pixel.
proof fn lemma_gray_ext(a: Gray, b: Gray)
    requires
        a.exact(),
        b.exact(),
        a.width == b.width,
        a.height == b.height,
        forall|x: int, y: int| 0 <= x < a.width && 0 <= y < a.height ==> #[trigger] a.at(x, y) == b.at(x, y),
    ensures
        a == b,
{
    assert forall|k: int| 0 <= k < a.pixels.len() implies a.pixels[k] == b.pixels[k] by {
        lemma_index_split(k, a.width as int, a.height as int);
        let x = k % (a.width as int);
        let y = k / (a.width as int);
        assert(a.at(x, y) == b.at(x, y));
    }
    assert(a.pixels =~= b.pixels);
}

/// Orienting a frame keeps its pixel count and swaps width and height exactly
/// for quarter turns (90 and 270 degrees).
pub proof fn lemma_oriented_dims(g: Gray, rotation_degrees: i32)
    ensures
        g.oriented(rotation_degrees).area() == g.area(),
        g.oriented(rotation_degrees).exact() <== g.exact() || rotation_degrees == 90
            || rotation_degrees == 180 || rotation_degrees == 270,
        (rotation_degrees == 90 || rotation_degrees == 270) ==> g.oriented(rotation_degrees).width
            == g.height && g.oriented(rotation_degrees).height == g.width,
        !(rotation_degrees == 90 || rotation_degrees == 270) ==> g.oriented(rotation_degrees).width
            == g.width && g.oriented(rotation_degrees).height == g.height,
{
    assert(g.height * g.width == g.width * g.height) by (nonlinear_arith);
}

/// Two half turns give back the frame.
pub proof fn lemma_rotate180_twice(g: Gray)
    requires
        g.exact(),
    ensures
        g.oriented(180).oriented(180) == g,
{
    let o = g.rotated180();
    let oo = o.rotated180();
    assert forall|x: int, y: int| 0 <= x < g.width && 0 <= y < g.height implies #[trigger] oo.at(x, y)
        == g.at(x, y) by {
        lemma_gray_from_fn_at(g.width, g.height, |x: int, y: int| o.at(g.width - 1 - x, g.height - 1 - y), x, y);
        lemma_gray_from_fn_at(g.width, g.height, |x: int, y: int| g.at(g.width - 1 - x, g.height - 1 - y), g.width - 1 - x, g.height - 1 - y);
    }
    lemma_gray_ext(oo, g);
}

/// Two quarter turns make a half turn.
pub proof fn lemma_rotate90_twice(g: Gray)
    requires
        g.wf(),
    ensures
        g.oriented(90).oriented(90) == g.oriented(180),
{
    let o = g.rotated90();
    let oo = o.rotated90();
    let h = g.oriented(180);
    assert(g.height * g.width == g.width * g.height) by (nonlinear_arith);
    assert forall|x: int, y: int| 0 <= x < g.width && 0 <= y < g.height implies #[trigger] oo.at(x, y)
        == h.at(x, y) by {
        lemma_gray_from_fn_at(g.width, g.height, |x: int, y: int| o.at(y, o.height - 1 - x), x, y);
        lemma_gray_from_fn_at(g.height, g.width, |x: int, y: int| g.at(y, g.height - 1 - x), y, g.width - 1 - x);
        lemma_gray_from_fn_at(g.width, g.height, |x: int, y: int| g.at(g.width - 1 - x, g.height - 1 - y), x, y);
    }
    lemma_gray_ext(oo, h);
}

/// Four quarter turns give back the frame.
pub proof fn lemma_rotate90_four_times(g: Gray)
    requires
        g.exact(),
    ensures
        g.oriented(90).oriented(90).oriented(90).oriented(90) == g,
{
    lemma_rotate90_twice(g);
    let h = g.oriented(180);
    assert(g.height * g.width == g.width * g.height) by (nonlinear_arith);
    lemma_rotate90_twice(h);
    lemma_rotate180_twice(g);
}

/// The front-camera orientation (270 degrees) mirrors the frame across its
/// anti-diagonal: pixel `(x, y)` of the result is pixel
/// `(w - 1 - y, h - 1 - x)` of the frame.
pub proof fn lemma_front_camera_orientation(g: Gray, x: int, y: int)
    requires
        g.wf(),
        0 <= x < g.height,
        0 <= y < g.width,
    ensures
        g.oriented(270).width == g.height,
        g.oriented(270).height == g.width,
        g.oriented(270).at(x, y) == g.at(g.width - 1 - y, g.height - 1 - x),
{
    let r = g.rotated270();
    lemma_gray_from_fn_at(g.height, g.width, |x: int, y: int| r.at(r.width - 1 - x, y), x, y);
    lemma_gray_from_fn_at(g.height, g.width, |x: int, y: int| g.at(g.width - 1 - y, x), g.height - 1 - x, y);
}

/// Orienting a front-camera frame twice gives back the frame.
pub proof fn lemma_front_camera_orientation_twice(g: Gray)
    requires
        g.exact(),
    ensures
        g.oriented(270).oriented(270) == g,
{
    let o = g.oriented(270);
    let oo = o.oriented(270);
    assert(g.height * g.width == g.width * g.height) by (nonlinear_arith);
    assert forall|x: int, y: int| 0 <= x < g.width && 0 <= y < g.height implies #[trigger] oo.at(x, y)
        == g.at(x, y) by {
        lemma_front_camera_orientation(o, x, y);
        lemma_front_camera_orientation(g, g.height - 1 - y, g.width - 1 - x);
    }
    lemma_gray_ext(oo, g);
}

/// A gray image: `width` x `height` pixels stored row by row, one byte each.
/// The buffer may be longer than the image (as with `image::ImageBuffer`).
pub struct GrayImage {
    width: u32,
    height: u32,
    pixels: Vec<u8>,
}

impl View for GrayImage {
    type V = Gray;

    closed spec fn view(&self) -> Gray {
        Gray { width: self.width, height: self.height, pixels: self.pixels@ }
    }
}

impl GrayImage {
    /// The buffer always covers the image.
    #[verifier::type_invariant]
    spec fn covers(self) -> bool {
        self.width * self.height <= self.pixels@.len()
    }

    /// Wraps a raw buffer as a `width` x `height` image. Fails, as
    /// `image::ImageBuffer::from_raw` does, when the buffer is shorter than
    /// one byte per pixel.
    pub fn from_raw(width: u32, height: u32, pixels: Vec<u8>) -> (img: Option<GrayImage>)
        ensures
            img is Some <==> width * height <= pixels@.len(),
            img matches Some(i) ==> i@ == (Gray { width, height, pixels: pixels@ }),
    {
        proof {
            lemma_mul_inequality(width as int, 0x1_0000_0000, height as int);
            lemma_mul_inequality(height as int, 0x1_0000_0000, 0x1_0000_0000);
            assert(width * height == height * width) by (nonlinear_arith);
        }
        let area: u64 = width as u64 * height as u64;
        if area <= pixels.len() as u64 {
            Some(GrayImage { width, height, pixels })
        } else {
            None
        }
    }

    /// Image width.
    pub fn width(&self) -> (w: u32)
        ensures
            w == self@.width,
    {
        self.width
    }

    /// Image height.
    pub fn height(&self) -> (h: u32)
        ensures
            h == self@.height,
    {
        self.height
    }

    /// The raw buffer.
    pub fn into_raw(self) -> (pixels: Vec<u8>)
        ensures
            pixels@ == self@.pixels,
    {
        self.pixels
    }

    /// The raw buffer, borrowed.
    pub fn as_raw(&self) -> (pixels: &Vec<u8>)
        ensures
            pixels@ == self@.pixels,
    {
        &self.pixels
    }

    /// Orients a camera frame: see [`Gray::oriented`].
    pub fn orient(self, rotation_degrees: i32) -> (out: GrayImage)
        ensures
            out@ == self@.oriented(rotation_degrees),
    {
        proof {
            use_type_invariant(&self);
        }
        if rotation_degrees == 90 {
            rotate90(&self)
        } else if rotation_degrees == 180 {
            rotate180(&self)
        } else if rotation_degrees == 270 {
            let turned = rotate270(&self);
            proof {
                use_type_invariant(&turned);
            }
            flip_horizontal(&turned)
        } else {
            self
        }
    }
}

/// `image::imageops::rotate90` on the image: output pixel `(h - 1 - y, x)`
/// takes input pixel `(x, y)`, in a new `height` x `width` buffer.
#[verifier::external_body]
fn rotate90(img: &GrayImage) -> (out: GrayImage)
    requires
        img@.wf(),
    ensures
        out@ == img@.rotated90(),
{
    let src = image::ImageBuffer::<image::Luma<u8>, &[u8]>::from_raw(img.width, img.height, &img.pixels[..]).unwrap();
    let dst = image::imageops::rotate90(&src);
    GrayImage { width: dst.width(), height: dst.height(), pixels: dst.into_raw() }
}

/// `image::imageops::rotate180` on the image: output pixel `(w - 1 - x, h - 1 - y)`
/// takes input pixel `(x, y)`, in a new `width` x `height` buffer.
#[verifier::external_body]
fn rotate180(img: &GrayImage) -> (out: GrayImage)
    requires
        img@.wf(),
    ensures
        out@ == img@.rotated180(),
{
    let src = image::ImageBuffer::<image::Luma<u8>, &[u8]>::from_raw(img.width, img.height, &img.pixels[..]).unwrap();
    let dst = image::imageops::rotate180(&src);
    GrayImage { width: dst.width(), height: dst.height(), pixels: dst.into_raw() }
}

/// `image::imageops::rotate270` on the image: output pixel `(y, w - 1 - x)`
/// takes input pixel `(x, y)`, in a new `height` x `width` buffer.
#[verifier::external_body]
fn rotate270(img: &GrayImage) -> (out: GrayImage)
    requires
        img@.wf(),
    ensures
        out@ == img@.rotated270(),
{
    let src = image::ImageBuffer::<image::Luma<u8>, &[u8]>::from_raw(img.width, img.height, &img.pixels[..]).unwrap();
    let dst = image::imageops::rotate270(&src);
    GrayImage { width: dst.width(), height: dst.height(), pixels: dst.into_raw() }
}

/// `image::imageops::flip_horizontal` on the image: output pixel `(w - 1 - x, y)`
/// takes input pixel `(x, y)`, in a new `width` x `height` buffer.
#[verifier::external_body]
fn flip_horizontal(img: &GrayImage) -> (out: GrayImage)
    requires
        img@.wf(),
    ensures
        out@ == img@.flipped_horizontally(),
{
    let src = image::ImageBuffer::<image::Luma<u8>, &[u8]>::from_raw(img.width, img.height, &img.pixels[..]).unwrap();
    let dst = image::imageops::flip_horizontal(&src);
    GrayImage { width: dst.width(), height: dst.height(), pixels: dst.into_raw() }
}

/// Gray level that `image` gives an RGBA pixel with channels `r`, `g`, `b`
/// (`Luma::from_color`, a weighted sum computed in `f32`).
pub uninterp spec fn rgb_luma(r: u8, g: u8, b: u8) -> u8;

/// Pixels that `image::imageops::resize` with `FilterType::Nearest` produces
/// from a gray image.
pub uninterp spec fn nearest_resized(
    pixels: Seq<u8>,
    width: u32,
    height: u32,
    new_width: u32,
    new_height: u32,
) -> Seq<u8>;

/// Bytes of the baseline JPEG file that `image::jpeg::JPEGEncoder` writes
/// for a gray image.
pub uninterp spec fn jpeg_gray_encoding(pixels: Seq<u8>, width: u32, height: u32) -> Seq<u8>;

/// The gray image obtained from an RGBA buffer (4 bytes per pixel, alpha
/// ignored), pixel by pixel.
pub open spec fn rgba_to_gray(width: u32, height: u32, rgba: Seq<u8>) -> Gray {
    Gray {
        width,
        height,
        pixels: Seq::new(
            (width * height) as nat,
            |k: int| rgb_luma(rgba[4 * k], rgba[4 * k + 1], rgba[4 * k + 2]),
        ),
    }
}

/// `ConvertBuffer::convert` from an RGBA `image::ImageBuffer` to a gray one.
/// `convert` fills a new `width` x `height` buffer pixel by pixel with
/// `Luma::from_color` of the matching RGBA pixel; what that `f32` weighted
/// sum gives is left to the name `rgb_luma`.
#[verifier::external_body]
fn luma_from_rgba(width: u32, height: u32, rgba: &[u8]) -> (out: GrayImage)
    requires
        4 * (width * height) <= rgba@.len(),
    ensures
        out@.width == width,
        out@.height == height,
        out@.pixels.len() == width * height,
        forall|k: int|
            0 <= k < width * height ==> #[trigger] out@.pixels[k] == rgb_luma(
                rgba@[4 * k],
                rgba@[4 * k + 1],
                rgba@[4 * k + 2],
            ),
{
    let src = image::ImageBuffer::<image::Rgba<u8>, &[u8]>::from_raw(width, height, rgba).unwrap();
    let dst: image::GrayImage = src.convert();
    GrayImage { width: dst.width(), height: dst.height(), pixels: dst.into_raw() }
}

/// Whether an RGBA buffer of `len` bytes holds a `width` x `height` image,
/// as `image::ImageBuffer::from_raw` decides it.
pub fn rgba_fits(width: u32, height: u32, len: usize) -> (fits: bool)
    ensures
        fits == (4 * (width * height) <= len),
{
    proof {
        lemma_mul_inequality(width as int, 0x1_0000_0000, height as int);
        lemma_mul_inequality(height as int, 0x1_0000_0000, 0x1_0000_0000);
        assert(width * height == height * width) by (nonlinear_arith);
    }
    let area: u128 = width as u128 * height as u128;
    4 * area <= len as u128
}

/// Turns an RGBA bitmap buffer into a gray image; `None` when the buffer is
/// too short for `width` x `height` pixels.
pub fn gray_from_rgba(width: u32, height: u32, rgba: Vec<u8>) -> (img: Option<GrayImage>)
    ensures
        img is Some <==> 4 * (width * height) <= rgba@.len(),
        img matches Some(i) ==> i@ == rgba_to_gray(width, height, rgba@) && i@.exact(),
{
    if rgba_fits(width, height, rgba.len()) {
        let out = luma_from_rgba(width, height, rgba.as_slice());
        assert(out@.pixels =~= rgba_to_gray(width, height, rgba@).pixels);
        Some(out)
    } else {
        None
    }
}

/// `image::imageops::resize` with `FilterType::Nearest`: a new
/// `new_width` x `new_height` buffer. `resize` reads no pixel when an empty
/// side is resized to an empty side; this wrapper is not called on an empty
/// side resized to a nonempty one.
#[verifier::external_body]
fn resize_nearest_raw(img: &GrayImage, new_width: u32, new_height: u32) -> (out: GrayImage)
    requires
        img@.wf(),
        img@.width > 0 || new_width == 0,
        img@.height > 0 || new_height == 0,
    ensures
        out@ == (Gray {
            width: new_width,
            height: new_height,
            pixels: nearest_resized(img@.pixels, img@.width, img@.height, new_width, new_height),
        }),
        out@.exact(),
{
    let src = image::ImageBuffer::<image::Luma<u8>, &[u8]>::from_raw(img.width, img.height, &img.pixels[..]).unwrap();
    let dst = image::imageops::resize(&src, new_width, new_height, image::FilterType::Nearest);
    GrayImage { width: dst.width(), height: dst.height(), pixels: dst.into_raw() }
}

/// `image::jpeg::JPEGEncoder::encode` of the image as 8-bit gray into a
/// fresh `Vec`. The encoder supports 8-bit gray and writes only into the
/// `Vec`, which never fails, so the result is always `Some`.
#[verifier::external_body]
fn encode_jpeg(img: &GrayImage) -> (jpeg: Option<Vec<u8>>)
    requires
        img@.wf(),
    ensures
        jpeg is Some,
        jpeg matches Some(bytes) ==> bytes@ == jpeg_gray_encoding(img@.pixels, img@.width, img@.height),
{
    let mut out: Vec<u8> = Vec::new();
    let mut encoder = image::jpeg::JPEGEncoder::new(&mut out);
    match encoder.encode(&img.pixels, img.width, img.height, <image::Luma<u8> as image::Pixel>::color_type()) {
        Ok(()) => Some(out),
        Err(_) => None,
    }
}

impl GrayImage {
    /// The image as a baseline JPEG file.
    pub fn to_jpeg(&self) -> (jpeg: Option<Vec<u8>>)
        ensures
            jpeg is Some,
            jpeg matches Some(bytes) ==> bytes@ == jpeg_gray_encoding(self@.pixels, self@.width, self@.height),
    {
        proof {
            use_type_invariant(self);
        }
        encode_jpeg(self)
    }

    /// Nearest-neighbour resize to `new_width` x `new_height`.
    pub fn resize_nearest(&self, new_width: u32, new_height: u32) -> (out: GrayImage)
        requires
            self@.width > 0 || new_width == 0,
            self@.height > 0 || new_height == 0,
        ensures
            out@ == (Gray {
                width: new_width,
                height: new_height,
                pixels: nearest_resized(self@.pixels, self@.width, self@.height, new_width, new_height),
            }),
            out@.exact(),
    {
        proof {
            use_type_invariant(self);
        }
        resize_nearest_raw(self, new_width, new_height)
    }
}

} // verus!
