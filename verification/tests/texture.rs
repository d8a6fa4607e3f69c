use renderer::texture::{decode_rgba8, image_from_pixels};

#[test]
fn decode_png_into_rgba_pixels() {
    let source = image::RgbaImage::from_raw(2, 1, vec![1, 2, 3, 4, 5, 6, 7, 8]).unwrap();
    let mut bytes = Vec::new();
    source
        .write_to(&mut std::io::Cursor::new(&mut bytes), image::ImageFormat::Png)
        .unwrap();
    let decoded = decode_rgba8(&bytes).expect("a valid png");
    assert_eq!(decoded.width, 2);
    assert_eq!(decoded.height, 1);
    assert_eq!(decoded.pixels, vec![1, 2, 3, 4, 5, 6, 7, 8]);
}

#[test]
fn decode_rejects_garbage() {
    assert!(decode_rgba8(&[0, 1, 2, 3]).is_none());
    assert!(decode_rgba8(&[]).is_none());
}

#[test]
fn image_needs_four_bytes_per_pixel() {
    assert!(image_from_pixels(2, 2, vec![0; 16]).is_some());
    assert!(image_from_pixels(2, 2, vec![0; 15]).is_none());
    assert!(image_from_pixels(0, 5, vec![]).is_some());
}
