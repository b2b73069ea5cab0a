use rustface_jni::key::{hex_of, key_of_digest, parse_hex};
use rustface_jni::param::{
    parameter_named, parse_i32, read_setting, IntErrorKind, ParameterError, ParameterName,
    ParameterSetting,
};
use rustface_jni::registry::{model_handle, DetectorRegistry};

#[test]
fn hex_text_is_lower_case_two_digits_per_byte() {
    assert_eq!(hex_of(&[0x00, 0x0f, 0xa0, 0xff]), b"000fa0ff".to_vec());
    assert_eq!(hex_of(&[]), Vec::<u8>::new());
}

#[test]
fn hex_text_reads_back() {
    let digest: [u8; 16] = [0xd4, 0x1d, 0x8c, 0xd9, 0x8f, 0x00, 0xb2, 0x04, 0xe9, 0x80, 0x09, 0x98, 0xec, 0xf8, 0x42, 0x7e];
    let text = hex_of(&digest);
    assert_eq!(text, b"d41d8cd98f00b204e9800998ecf8427e".to_vec());
    assert_eq!(parse_hex(&text), Some(digest));
    assert_eq!(parse_hex(b"D41D8CD98F00B204E9800998ECF8427E"), None);
    assert_eq!(parse_hex(b"d41d8cd98f00b204e9800998ecf8427"), None);
    assert_eq!(parse_hex(b"d41d8cd98f00b204e9800998ecf8427e0"), None);
    assert_eq!(parse_hex(b"d41d8cd98f00b204e9800998ecf8427g"), None);
}

#[test]
fn keys_are_big_endian_values() {
    let mut digest = [0u8; 16];
    digest[15] = 1;
    assert_eq!(key_of_digest(&digest), 1);
    digest[0] = 0x80;
    assert_eq!(key_of_digest(&digest), (1u128 << 127) + 1);
}

#[test]
fn integers_parse_like_std() {
    for text in ["0", "42", "-42", "+42", "2147483647", "-2147483648", "007", "-0"] {
        assert_eq!(parse_i32(text), Ok(text.parse::<i32>().unwrap()));
    }
    assert_eq!(parse_i32(""), Err(IntErrorKind::Empty));
    assert_eq!(parse_i32("+"), Err(IntErrorKind::InvalidDigit));
    assert_eq!(parse_i32("-"), Err(IntErrorKind::InvalidDigit));
    assert_eq!(parse_i32("12a"), Err(IntErrorKind::InvalidDigit));
    assert_eq!(parse_i32(" 12"), Err(IntErrorKind::InvalidDigit));
    assert_eq!(parse_i32("1.5"), Err(IntErrorKind::InvalidDigit));
    assert_eq!(parse_i32("2147483648"), Err(IntErrorKind::PosOverflow));
    assert_eq!(parse_i32("-2147483649"), Err(IntErrorKind::NegOverflow));
    assert_eq!(parse_i32("99999999999x"), Err(IntErrorKind::PosOverflow));
    assert_eq!(parse_i32("--1"), Err(IntErrorKind::InvalidDigit));
    assert_eq!(parse_i32("٣"), Err(IntErrorKind::InvalidDigit));
}

#[test]
fn parameter_names_are_exact() {
    assert_eq!(parameter_named("noupdatememory"), Some(ParameterName::NoUpdateMemory));
    assert_eq!(parameter_named("minsize"), Some(ParameterName::MinSize));
    assert_eq!(parameter_named("maxsize"), Some(ParameterName::MaxSize));
    assert_eq!(parameter_named("scalefactor"), Some(ParameterName::ScaleFactor));
    assert_eq!(parameter_named("stridefactor"), Some(ParameterName::StrideFactor));
    assert_eq!(parameter_named("angle"), Some(ParameterName::Angle));
    assert_eq!(parameter_named("qthreshold"), Some(ParameterName::QThreshold));
    assert_eq!(parameter_named("MinSize"), None);
    assert_eq!(parameter_named("minsize "), None);
    assert_eq!(parameter_named(""), None);
    for p in [ParameterName::MinSize, ParameterName::Angle, ParameterName::QThreshold] {
        assert_eq!(parameter_named(std::str::from_utf8(&p.text()).unwrap()), Some(p));
    }
}

#[test]
fn settings_read_integers_and_leave_fractions() {
    assert_eq!(read_setting("minsize", "20"), Ok(ParameterSetting::Integer(ParameterName::MinSize, 20)));
    assert_eq!(read_setting("angle", "0.5"), Ok(ParameterSetting::Fractional(ParameterName::Angle)));
    assert_eq!(read_setting("angle", "not a number"), Ok(ParameterSetting::Fractional(ParameterName::Angle)));
    assert_eq!(read_setting("size", "20"), Err(ParameterError::UnknownParameter));
    assert_eq!(
        read_setting("maxsize", "1e3"),
        Err(ParameterError::InvalidInteger(IntErrorKind::InvalidDigit))
    );
}

#[test]
fn creating_twice_keeps_the_first_detector() {
    let mut registry: DetectorRegistry<u32> = DetectorRegistry::new();
    let handle = registry.create(b"", || 1);
    assert_eq!(handle, b"d41d8cd98f00b204e9800998ecf8427e".to_vec());
    let again = registry.create(b"", || 2);
    assert_eq!(again, handle);
    assert_eq!(model_handle(b""), again);
    let text = String::from_utf8(handle).unwrap();
    assert!(registry.contains(&text));
    assert_eq!(registry.last_frame_jpeg(&text), None);
    assert_eq!(registry.update_detector(&text, |d| (d + 10, d)), Some(1));
    assert_eq!(registry.update_detector(&text, |d| (d, d)), Some(11));
    assert!(registry.contains(&text));
}

#[test]
fn updates_need_a_registered_detector() {
    let mut registry: DetectorRegistry<u32> = DetectorRegistry::new();
    assert_eq!(registry.update_detector("d41d8cd98f00b204e9800998ecf8427e", |d| (d, d)), None);
    let frame = rustface_jni::gray::GrayImage::from_raw(1, 1, vec![9]).unwrap();
    assert_eq!(registry.search_frame("d41d8cd98f00b204e9800998ecf8427e", frame, |d, _| (d, d)), None);
    assert_eq!(registry.last_frame_jpeg("d41d8cd98f00b204e9800998ecf8427e"), None);
}

#[test]
fn different_cascades_get_different_handles() {
    let mut registry: DetectorRegistry<&str> = DetectorRegistry::new();
    let a = String::from_utf8(registry.create(b"abc", || "a")).unwrap();
    let b = String::from_utf8(registry.create(b"abd", || "b")).unwrap();
    assert_eq!(a, "900150983cd24fb0d6963f7d28e17f72");
    assert_ne!(a, b);
    assert_eq!(registry.update_detector(&b, |d| (d, d)), Some("b"));
    assert_eq!(registry.update_detector(&a, |d| (d, d)), Some("a"));
}

#[test]
fn removing_forgets_the_detector() {
    let mut registry: DetectorRegistry<u8> = DetectorRegistry::new();
    let h = String::from_utf8(registry.create(b"model", || 7)).unwrap();
    registry.remove("not a handle");
    registry.remove(&h.to_uppercase());
    assert!(registry.contains(&h));
    registry.remove(&h);
    assert!(!registry.contains(&h));
    assert_eq!(registry.update_detector(&h, |d| (d, d)), None);
    registry.remove(&h);
    assert!(!registry.contains(&h));
}

#[test]
fn settings_need_a_registered_detector() {
    let mut registry: DetectorRegistry<u8> = DetectorRegistry::new();
    assert_eq!(
        registry.check_setting("900150983cd24fb0d6963f7d28e17f72", "minsize", "20"),
        Err(ParameterError::DetectorMissing)
    );
    let h = String::from_utf8(registry.create(b"abc", || 0)).unwrap();
    assert_eq!(
        registry.check_setting(&h, "minsize", "20"),
        Ok(ParameterSetting::Integer(ParameterName::MinSize, 20))
    );
    assert_eq!(registry.check_setting(&h, "bogus", "20"), Err(ParameterError::UnknownParameter));
    assert_eq!(
        registry.check_setting(&h, "minsize", ""),
        Err(ParameterError::InvalidInteger(IntErrorKind::Empty))
    );
}

#[test]
fn last_frame_is_the_last_searched_one() {
    let mut registry: DetectorRegistry<u8> = DetectorRegistry::new();
    let h = String::from_utf8(registry.create(b"abc", || 0)).unwrap();
    assert_eq!(registry.last_frame_jpeg(&h), None);
    assert_eq!(registry.last_frame_jpeg("nothing"), None);

    let first = rustface_jni::frame::frame_from_yuv420sp(&vec![17u8; 96], 8, 8, 0).unwrap();
    let second = rustface_jni::frame::frame_from_yuv420sp(&vec![200u8; 96], 8, 8, 90).unwrap();
    let expected = second.to_jpeg().unwrap();
    assert_ne!(first.to_jpeg().unwrap(), expected);

    assert_eq!(registry.search_frame(&h, first, |d, img| (d + 1, img.width())), Some(8));
    assert_eq!(registry.search_frame(&h, second, |d, _| (d + 1, d)), Some(1));
    // Using or tuning the detector keeps the last frame.
    assert_eq!(registry.update_detector(&h, |d| (d + 1, d)), Some(2));
    let other = String::from_utf8(registry.create(b"other", || 9)).unwrap();
    let third = rustface_jni::gray::GrayImage::from_raw(1, 1, vec![5]).unwrap();
    assert_eq!(registry.search_frame(&other, third, |d, _| (d, d)), Some(9));

    let jpeg = registry.last_frame_jpeg(&h).unwrap();
    assert_eq!(jpeg, expected);
    assert_eq!(&jpeg[..2], &[0xFF, 0xD8]);

    registry.remove(&h);
    assert_eq!(registry.last_frame_jpeg(&h), None);
    assert!(registry.last_frame_jpeg(&other).is_some());
}
