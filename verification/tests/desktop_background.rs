use zapfast::desktop_background::{
    decode, fits, needs_scaling, DecodeError, DesktopBackground, Key, Received,
};

fn key(path: &str, len: u64) -> Key {
    Key { path: path.as_bytes().to_vec(), modified: Some(1_700_000_000_000_000_000), len }
}

#[test]
fn a_changed_file_is_loaded_once_and_counted() {
    let mut bg: DesktopBackground<&str, u8> = DesktopBackground::new();
    let load = bg.refresh(Some(key("/bg.png", 10)), 1);
    assert_eq!(load.map(|k| k.len), Some(10));
    assert_eq!(bg.receiver(), Some(&1));
    bg.poll(Received::Empty);
    assert_eq!(bg.image(), (0, None));
    bg.poll(Received::Loaded(key("/bg.png", 10), Some("image")));
    assert_eq!(bg.image(), (1, Some(&"image")));
    assert_eq!(bg.receiver(), None);
    // The same file again: nothing to load.
    assert!(bg.refresh(Some(key("/bg.png", 10)), 2).is_none());
    assert_eq!(bg.receiver(), None);
    // A new file: loaded, the old image stays until it arrives.
    assert!(bg.refresh(Some(key("/bg.png", 11)), 3).is_some());
    assert_eq!(bg.image(), (1, Some(&"image")));
}

#[test]
fn not_following_drops_the_background() {
    let mut bg: DesktopBackground<&str, u8> = DesktopBackground::new();
    bg.refresh(Some(key("/a.jpg", 5)), 1);
    bg.poll(Received::Loaded(key("/a.jpg", 5), Some("a")));
    assert!(bg.refresh(None, 2).is_none());
    assert_eq!(bg.image(), (2, None));
    assert!(bg.refresh(None, 3).is_none());
    assert_eq!(bg.image(), (2, None));
}

#[test]
fn a_lost_loader_is_forgotten() {
    let mut bg: DesktopBackground<&str, u8> = DesktopBackground::new();
    bg.refresh(Some(key("/a.jpg", 5)), 1);
    bg.poll(Received::Disconnected);
    assert_eq!(bg.receiver(), None);
    bg.poll(Received::Loaded(key("/a.jpg", 5), Some("late")));
    assert_eq!(bg.image(), (0, None));
}

#[test]
fn limits_of_decoding() {
    assert!(fits(64 * 1024 * 1024));
    assert!(!fits(64 * 1024 * 1024 + 1));
    assert!(!needs_scaling(2560, 1440));
    assert!(needs_scaling(2561, 100));
    assert!(needs_scaling(100, 3000));
}

fn png(width: u32, height: u32) -> Vec<u8> {
    let image = image::DynamicImage::ImageRgba8(image::RgbaImage::from_pixel(
        width,
        height,
        image::Rgba([10, 20, 30, 255]),
    ));
    let mut bytes = Vec::new();
    image.write_to(&mut std::io::Cursor::new(&mut bytes), image::ImageFormat::Png).unwrap();
    bytes
}

#[test]
fn decode_keeps_small_images_and_scales_large_ones() {
    let bytes = png(3, 2);
    let (w, h, pixels) = decode("png", bytes.len() as u64, &bytes).unwrap();
    assert_eq!((w, h), (3, 2));
    assert_eq!(pixels.len(), 24);
    assert_eq!(&pixels[..4], &[10, 20, 30, 255]);
    let bytes = png(2600, 100);
    let (w, h, pixels) = decode("png", bytes.len() as u64, &bytes).unwrap();
    assert_eq!((w, h), (2560, 98));
    assert_eq!(pixels.len(), 4 * 2560 * 98);
    let bytes = png(50, 3000);
    let (w, h, _) = decode("png", bytes.len() as u64, &bytes).unwrap();
    assert_eq!((w, h), (43, 2560));
}

#[test]
fn decode_refuses_large_files_and_non_images() {
    assert_eq!(decode("png", 64 * 1024 * 1024 + 1, &png(1, 1)).err(), Some(DecodeError::TooLarge));
    assert_eq!(decode("png", 5, b"hello").err(), Some(DecodeError::Unreadable));
}

#[test]
fn decode_goes_by_the_extension() {
    let bytes = png(2, 2);
    assert!(decode("PNG", bytes.len() as u64, &bytes).is_ok());
    assert_eq!(decode("jpg", bytes.len() as u64, &bytes).err(), Some(DecodeError::Unreadable));
    assert_eq!(decode("", bytes.len() as u64, &bytes).err(), Some(DecodeError::Unreadable));
    assert_eq!(decode("txt", bytes.len() as u64, &bytes).err(), Some(DecodeError::Unreadable));
}

#[test]
fn large_deep_images_are_scaled_in_their_own_format() {
    let image = image::DynamicImage::ImageRgb16(image::ImageBuffer::from_fn(2600, 40, |x, y| {
        image::Rgb([(x * 25) as u16, (y * 1000) as u16, 12345])
    }));
    let mut bytes = Vec::new();
    image.write_to(&mut std::io::Cursor::new(&mut bytes), image::ImageFormat::Png).unwrap();
    let (w, h, pixels) = decode("png", bytes.len() as u64, &bytes).unwrap();
    let expected = image
        .resize(2560, 2560, image::imageops::FilterType::Triangle)
        .to_rgba8();
    assert_eq!((w, h), expected.dimensions());
    assert_eq!(pixels, expected.into_raw());
}
