use rustface_jni::frame::{
    detection_frame, frame_from_bitmap, frame_from_yuv420sp, FrameError, ANDROID_BITMAP_FORMAT_RGBA_8888,
};
use rustface_jni::gray::{gray_from_rgba, rgba_fits, GrayImage};

fn image(width: u32, height: u32) -> GrayImage {
    let pixels: Vec<u8> = (0..width * height).map(|k| k as u8).collect();
    GrayImage::from_raw(width, height, pixels).unwrap()
}

fn at(img: &GrayImage, x: u32, y: u32) -> u8 {
    img.as_raw()[(y * img.width() + x) as usize]
}

#[test]
fn from_raw_needs_one_byte_per_pixel() {
    assert!(GrayImage::from_raw(3, 2, vec![0; 5]).is_none());
    let img = GrayImage::from_raw(3, 2, vec![7; 8]).unwrap();
    assert_eq!((img.width(), img.height()), (3, 2));
    assert_eq!(img.into_raw(), vec![7; 8]);
    assert!(GrayImage::from_raw(0, 100, vec![]).is_some());
}

#[test]
fn quarter_turn_moves_pixels_clockwise() {
    // 3 wide, 2 high: rows [0 1 2] [3 4 5]
    let out = image(3, 2).orient(90);
    assert_eq!((out.width(), out.height()), (2, 3));
    assert_eq!(out.into_raw(), vec![3, 0, 4, 1, 5, 2]);
}

#[test]
fn half_turn_reverses_the_buffer() {
    let out = image(3, 2).orient(180);
    assert_eq!((out.width(), out.height()), (3, 2));
    assert_eq!(out.into_raw(), vec![5, 4, 3, 2, 1, 0]);
}

#[test]
fn front_camera_orientation_mirrors_across_the_anti_diagonal() {
    let src = image(3, 2);
    let out = image(3, 2).orient(270);
    assert_eq!((out.width(), out.height()), (2, 3));
    for x in 0..2 {
        for y in 0..3 {
            assert_eq!(at(&out, x, y), at(&src, 3 - 1 - y, 2 - 1 - x));
        }
    }
    let back = out.orient(270);
    assert_eq!(back.into_raw(), src.into_raw());
}

#[test]
fn other_angles_leave_the_frame_alone() {
    for angle in [0, 45, -90, 360, 91] {
        assert_eq!(image(3, 2).orient(angle).into_raw(), vec![0, 1, 2, 3, 4, 5]);
    }
}

#[test]
fn four_quarter_turns_are_the_identity() {
    let out = image(4, 3).orient(90).orient(90).orient(90).orient(90);
    assert_eq!((out.width(), out.height()), (4, 3));
    assert_eq!(out.into_raw(), image(4, 3).into_raw());
}

fn luma(r: u8, g: u8, b: u8) -> u8 {
    (0.2126f32 * r as f32 + 0.7152f32 * g as f32 + 0.0722f32 * b as f32) as u8
}

#[test]
fn rgba_turns_gray_pixel_by_pixel() {
    let rgba = vec![255u8, 0, 0, 255, 0, 255, 0, 0, 0, 0, 255, 9, 10, 20, 30, 40];
    let gray = gray_from_rgba(2, 2, rgba).unwrap();
    assert_eq!(
        gray.into_raw(),
        vec![luma(255, 0, 0), luma(0, 255, 0), luma(0, 0, 255), luma(10, 20, 30)]
    );
    assert!(gray_from_rgba(2, 2, vec![0; 15]).is_none());
    assert!(rgba_fits(2, 2, 16));
    assert!(!rgba_fits(2, 2, 15));
    assert!(!rgba_fits(u32::MAX, u32::MAX, usize::MAX));
}

#[test]
fn bitmap_frames_check_format_then_size() {
    assert_eq!(frame_from_bitmap(4, 1, 1, vec![0; 4], 0).err(), Some(FrameError::UnsupportedFormat));
    assert_eq!(frame_from_bitmap(4, 1, 1, vec![], 0).err(), Some(FrameError::UnsupportedFormat));
    assert_eq!(
        frame_from_bitmap(ANDROID_BITMAP_FORMAT_RGBA_8888, 2, 1, vec![0; 7], 0).err(),
        Some(FrameError::UnreadableImage)
    );
    let frame = frame_from_bitmap(ANDROID_BITMAP_FORMAT_RGBA_8888, 2, 1, vec![0, 0, 0, 0, 255, 255, 255, 255], 90).unwrap();
    assert_eq!((frame.width(), frame.height()), (1, 2));
    assert_eq!(frame.into_raw(), vec![luma(0, 0, 0), luma(255, 255, 255)]);
}

#[test]
fn yuv_frames_are_decoded_then_oriented() {
    // 2x2, neutral chroma; luma 17 gives 1, 235 gives 254.
    let data = vec![17u8, 235, 16, 16, 128, 128];
    let frame = frame_from_yuv420sp(&data, 2, 2, 90).unwrap();
    assert_eq!(frame.into_raw(), vec![0, 1, 0, 254]);
    let frame = frame_from_yuv420sp(&data, 2, 2, 0).unwrap();
    assert_eq!(frame.into_raw(), vec![1, 254, 0, 0]);
}

#[test]
fn yuv_frames_with_negative_sides() {
    // Both sides negative: the zero bytes do not cover a u32 x u32 image.
    assert!(frame_from_yuv420sp(&[], -2, -3, 0).is_none());
    // An empty side: an empty image, its other side taken as a u32.
    let frame = frame_from_yuv420sp(&[], 0, -5, 0).unwrap();
    assert_eq!((frame.width(), frame.height()), (0, (-5i32) as u32));
    assert!(frame.into_raw().is_empty());
}

#[test]
fn nearest_resize_samples_pixel_centres() {
    let img = image(4, 4);
    let small = img.resize_nearest(2, 2);
    assert_eq!((small.width(), small.height()), (2, 2));
    assert_eq!(small.into_raw(), vec![5, 7, 13, 15]);
}

#[test]
fn detection_frames_are_resized_on_request() {
    let rgba: Vec<u8> = (0..16u8).flat_map(|k| [k * 10, k * 10, k * 10, 255]).collect();
    let full = detection_frame(ANDROID_BITMAP_FORMAT_RGBA_8888, 4, 4, rgba.clone(), None).unwrap();
    assert_eq!((full.width(), full.height()), (4, 4));
    let small = detection_frame(ANDROID_BITMAP_FORMAT_RGBA_8888, 4, 4, rgba.clone(), Some((2, 2))).unwrap();
    let full_raw = full.into_raw();
    assert_eq!(small.into_raw(), vec![full_raw[5], full_raw[7], full_raw[13], full_raw[15]]);
    assert_eq!(
        detection_frame(2, 4, 4, rgba, None).err(),
        Some(FrameError::UnsupportedFormat)
    );
}

#[test]
fn jpeg_output_is_a_jpeg_file() {
    let jpeg = image(8, 8).to_jpeg().unwrap();
    assert_eq!(&jpeg[..2], &[0xFF, 0xD8]);
    assert_eq!(&jpeg[jpeg.len() - 2..], &[0xFF, 0xD9]);
}
