use rustface_jni::yuv::{decode_yuv420sp, frame_fits, try_decode_yuv420sp};

/// Reference gray value of one pixel, written out from the NV21 formulas.
fn reference_gray(y: u8, u: u8, v: u8) -> u8 {
    let yy = (y as i32 - 16).max(0);
    let u = u as i32 - 128;
    let v = v as i32 - 128;
    let clamp = |x: i32| x.max(0).min(262143);
    let r = clamp(1192 * yy + 1634 * v);
    let g = clamp(1192 * yy - 833 * v - 400 * u);
    let b = clamp(1192 * yy + 2066 * u);
    (((2 * r + 7 * g + b) / 10) >> 10) as u8
}

#[test]
fn neutral_chroma_gives_luma_scale() {
    // 2x2 frame: four luma bytes, one V/U pair.
    let data = vec![16u8, 235, 100, 0, 128, 128];
    let gray = decode_yuv420sp(&data, 2, 2);
    assert_eq!(gray, vec![0, 254, 97, 0]);
}

#[test]
fn black_level_is_clamped() {
    let data = vec![0u8, 10, 16, 17, 128, 128];
    let gray = decode_yuv420sp(&data, 2, 2);
    assert_eq!(gray, vec![0, 0, 0, 1]);
}

#[test]
fn chroma_pairs_are_shared_by_two_columns_and_two_rows() {
    // 4x2 frame: chroma row holds (V0,U0) for columns 0-1 and (V1,U1) for 2-3.
    let data = vec![
        120u8, 120, 120, 120, //
        120, 120, 120, 120, //
        200, 60, 60, 200,
    ];
    let gray = decode_yuv420sp(&data, 4, 2);
    let left = reference_gray(120, 60, 200);
    let right = reference_gray(120, 200, 60);
    assert_eq!(gray, vec![left, left, right, right, left, left, right, right]);
    assert_ne!(left, right);
}

#[test]
fn odd_width_reads_a_full_last_pair() {
    // 3x1 frame: columns 0-1 share pair 0, column 2 uses pair 1.
    let data = vec![50u8, 150, 250, 128, 128, 240, 16];
    assert!(frame_fits(data.len(), 3, 1));
    assert!(!frame_fits(data.len() - 1, 3, 1));
    let gray = decode_yuv420sp(&data, 3, 1);
    assert_eq!(
        gray,
        vec![
            reference_gray(50, 128, 128),
            reference_gray(150, 128, 128),
            reference_gray(250, 16, 240)
        ]
    );
}

#[test]
fn matches_reference_on_a_larger_frame() {
    let (w, h) = (6usize, 4usize);
    let mut data = Vec::new();
    for k in 0..w * h {
        data.push((k * 37 % 256) as u8);
    }
    for k in 0..w * h / 2 {
        data.push((k * 91 % 256) as u8);
    }
    let gray = decode_yuv420sp(&data, w as i32, h as i32);
    assert_eq!(gray.len(), w * h);
    for j in 0..h {
        for i in 0..w {
            let c = w * h + (j / 2) * w + 2 * (i / 2);
            assert_eq!(gray[j * w + i], reference_gray(data[j * w + i], data[c + 1], data[c]));
        }
    }
}

#[test]
fn empty_frames_decode_to_nothing() {
    assert_eq!(decode_yuv420sp(&[], 0, 0), Vec::<u8>::new());
    assert_eq!(decode_yuv420sp(&[], 5, 0), Vec::<u8>::new());
    assert_eq!(decode_yuv420sp(&[], 0, 7), Vec::<u8>::new());
}

#[test]
fn negative_sides_decode_no_pixel() {
    assert_eq!(decode_yuv420sp(&[], -2, -3), vec![0u8; 6]);
    assert_eq!(decode_yuv420sp(&[], 0, -3), Vec::<u8>::new());
    assert_eq!(decode_yuv420sp(&[], -4, 0), Vec::<u8>::new());
    assert!(frame_fits(0, -2, -3));
    assert!(!frame_fits(1000, -2, 3));
    assert!(!frame_fits(1000, 2, -3));
    assert!(!frame_fits(usize::MAX, -65536, -65536));
}

#[test]
fn frame_fits_rejects_bad_dimensions() {
    assert!(!frame_fits(100, -1, 2));
    assert!(!frame_fits(100, 2, -1));
    assert!(!frame_fits(usize::MAX, 65536, 65536));
    assert!(frame_fits(6, 2, 2));
    assert!(!frame_fits(5, 2, 2));
    assert!(frame_fits(0, 0, 3));
}

#[test]
fn try_decode_checks_length() {
    assert_eq!(try_decode_yuv420sp(&[16u8, 16, 16, 16, 128], 2, 2), None);
    assert_eq!(try_decode_yuv420sp(&[16u8, 16, 16, 16, 128, 128], 2, 2), Some(vec![0, 0, 0, 0]));
}

#[test]
fn brighter_luma_is_never_darker() {
    for u in [0u8, 64, 128, 200, 255] {
        for v in [0u8, 90, 128, 180, 255] {
            let mut prev = 0u8;
            for y in 0..=255u8 {
                let g = decode_yuv420sp(&[y, y, v, u], 2, 1)[0];
                assert!(g >= prev);
                prev = g;
            }
        }
    }
}
