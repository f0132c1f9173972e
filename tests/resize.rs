use dino_park_fossil::resize::{
    insert_metadata, is_near_square, scale, AvatarError, Avatars, ConverterError,
};

fn png(w: u32, h: u32) -> Vec<u8> {
    let img = image::DynamicImage::ImageRgba8(image::RgbaImage::from_pixel(
        w,
        h,
        image::Rgba([10, 20, 30, 255]),
    ));
    let mut out = std::io::Cursor::new(Vec::new());
    img.write_to(&mut out, image::ImageOutputFormat::Png).unwrap();
    out.into_inner()
}

fn crc32(b: &[u8]) -> u32 {
    let mut c = 0xffff_ffffu32;
    for &x in b {
        c ^= x as u32;
        for _ in 0..8 {
            c = if c & 1 != 0 { 0xedb8_8320 ^ (c >> 1) } else { c >> 1 };
        }
    }
    !c
}

fn chunk(name: &[u8; 4], data: &[u8]) -> Vec<u8> {
    let mut v = (data.len() as u32).to_be_bytes().to_vec();
    v.extend_from_slice(name);
    v.extend_from_slice(data);
    let mut typed = name.to_vec();
    typed.extend_from_slice(data);
    v.extend_from_slice(&crc32(&typed).to_be_bytes());
    v
}

fn with_chunks(png: &[u8], chunks: &[Vec<u8>]) -> Vec<u8> {
    let mut v = png[..33].to_vec();
    for c in chunks {
        v.extend_from_slice(c);
    }
    v.extend_from_slice(&png[33..]);
    v
}

fn contains(hay: &[u8], needle: &[u8]) -> bool {
    hay.windows(needle.len()).any(|w| w == needle)
}

fn dimensions(buf: &[u8]) -> (u32, u32) {
    let img = image::load_from_memory_with_format(buf, image::ImageFormat::Png).unwrap();
    (img.width(), img.height())
}

#[test]
fn square_png_gives_five_variants() {
    let buf = png(60, 60);
    let a = Avatars::new(buf.clone()).unwrap();
    assert_eq!(a.raw, buf);
    assert_eq!(dimensions(&a.x528), (528, 528));
    assert_eq!(dimensions(&a.x264), (264, 264));
    assert_eq!(dimensions(&a.x100), (100, 100));
    assert_eq!(dimensions(&a.x40), (40, 40));
}

#[test]
fn nearly_square_png_is_accepted() {
    assert!(Avatars::new(png(95, 100)).is_ok());
    assert!(Avatars::new(png(105, 100)).is_ok());
}

#[test]
fn wide_or_tall_png_is_refused() {
    assert_eq!(Avatars::new(png(100, 50)).err(), Some(AvatarError::AspectRatio));
    assert_eq!(Avatars::new(png(106, 100)).err(), Some(AvatarError::AspectRatio));
    assert_eq!(Avatars::new(png(100, 106)).err(), Some(AvatarError::AspectRatio));
}

#[test]
fn other_formats_are_refused() {
    assert_eq!(Avatars::new(b"GIF89a....".to_vec()).err(), Some(AvatarError::UnsupportedFormat));
    assert_eq!(Avatars::new(Vec::new()).err(), Some(AvatarError::UnsupportedFormat));
}

#[test]
fn broken_png_is_a_decode_error() {
    let mut buf = png(10, 10);
    buf.truncate(40);
    assert_eq!(Avatars::new(buf).err(), Some(AvatarError::Decode));
}

#[test]
fn color_chunks_are_copied_into_every_variant() {
    let gama = chunk(b"gAMA", &[0, 0, 0xb1, 0x8f]);
    let srgb = chunk(b"sRGB", &[0]);
    let buf = with_chunks(&png(50, 50), &[srgb.clone(), gama.clone()]);
    let meta = Avatars::maybe_extract_png_color_metadata(&buf).unwrap();
    let mut expected = gama.clone();
    expected.extend_from_slice(&srgb);
    assert_eq!(meta, expected);
    let a = Avatars::new(buf).unwrap();
    for v in [&a.x528, &a.x264, &a.x100, &a.x40] {
        assert_eq!(&v[33..33 + expected.len()], &expected[..]);
        assert!(contains(v, &gama));
        assert!(contains(v, &srgb));
    }
    assert_eq!(dimensions(&a.x40), (40, 40));
}

#[test]
fn no_color_chunks_no_metadata() {
    assert_eq!(Avatars::maybe_extract_png_color_metadata(&png(8, 8)).unwrap(), Vec::<u8>::new());
}

#[test]
fn chunk_framing() {
    let frame = Avatars::metadata(b"gAMA", &[1, 2, 3], 0xdead_beef);
    assert_eq!(frame, vec![0, 0, 0, 3, b'g', b'A', b'M', b'A', 1, 2, 3, 0xde, 0xad, 0xbe, 0xef]);
}

#[test]
fn metadata_goes_after_header() {
    let encoded: Vec<u8> = (0u8..40).collect();
    let out = insert_metadata(&encoded, &[200, 201]);
    let mut expected: Vec<u8> = (0u8..33).collect();
    expected.extend_from_slice(&[200, 201]);
    expected.extend(33u8..40);
    assert_eq!(out, expected);
    assert_eq!(insert_metadata(&[1, 2, 3], &[]), vec![1, 2, 3]);
}

#[test]
fn aspect_ratio_bounds() {
    assert!(is_near_square(95, 100));
    assert!(is_near_square(105, 100));
    assert!(!is_near_square(94, 100));
    assert!(!is_near_square(106, 100));
    assert!(!is_near_square(0, 0));
    assert!(!is_near_square(5, 0));
    assert!(is_near_square(u32::MAX, u32::MAX));
}

#[test]
fn scale_makes_square_png() {
    let out = scale(16, &png(30, 20)).unwrap();
    assert_eq!(dimensions(&out), (16, 16));
    assert_eq!(scale(16, b"nothing").err(), Some(ConverterError::Downsize));
    assert_eq!(scale(0, &png(30, 20)).err(), Some(ConverterError::Downsize));
    assert_eq!(scale(5000, &png(30, 20)).err(), Some(ConverterError::Downsize));
}
