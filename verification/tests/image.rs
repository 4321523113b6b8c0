use age::image::Image;

#[test]
fn image_from_pixels_keeps_size_and_bytes() {
    let mut img = Image::from_pixels(2, 1, &[1, 2, 3, 4, 5, 6, 7, 8]);
    assert_eq!(img.width(), 2);
    assert_eq!(img.height(), 1);
    assert_eq!(img.pixels(), &[1, 2, 3, 4, 5, 6, 7, 8]);
    assert_eq!(img[3], 4);
    img.set(3, 9);
    assert_eq!(img[3], 9);
}

#[test]
fn image_from_png_bytes_decodes_to_rgba() {
    // A 2 by 1 RGB image, encoded as PNG; decoding gives RGBA bytes.
    let rgb = image::RgbImage::from_raw(2, 1, vec![10, 20, 30, 40, 50, 60]).unwrap();
    let mut png: Vec<u8> = Vec::new();
    rgb.write_to(&mut std::io::Cursor::new(&mut png), image::ImageOutputFormat::Png).unwrap();
    let img = Image::from_bytes(&png).ok().unwrap();
    assert_eq!(img.width(), 2);
    assert_eq!(img.height(), 1);
    assert_eq!(img.pixels(), &[10, 20, 30, 255, 40, 50, 60, 255]);
}

#[test]
fn image_from_garbage_is_an_error() {
    let err = Image::from_bytes(&[1, 2, 3, 4]).err().unwrap();
    assert_eq!(err.to_string(), "an image processing error occurred");
    assert!(err.source().is_some());
}
