use image::{ImageFormat, RgbImage, RgbaImage};
use mega_clipboard::picture::{
    clipboard_picture_of, fallback_icon, icon_of, load_capture, load_icon, load_window_icon,
    usable_icon, ClipboardPicture, Picture,
};
use std::io::Cursor;

fn encoded(format: ImageFormat) -> Vec<u8> {
    let pixels: Vec<u8> = (0..24).map(|i| i * 10).collect();
    let image = RgbaImage::from_raw(3, 2, pixels).unwrap();
    let mut out = Cursor::new(Vec::new());
    image.write_to(&mut out, format).unwrap();
    out.into_inner()
}

#[test]
fn icon_is_decoded() {
    let icon = load_icon(&encoded(ImageFormat::Png));
    assert_eq!((icon.width, icon.height), (3, 2));
    assert_eq!(icon.pixels, (0..24).map(|i| i * 10).collect::<Vec<u8>>());
    let icon = load_icon(&encoded(ImageFormat::Ico));
    assert_eq!((icon.width, icon.height), (3, 2));
}

#[test]
fn icon_falls_back() {
    let icon = load_icon(b"no picture");
    assert_eq!(icon, Picture { width: 32, height: 32, pixels: vec![0; 32 * 32 * 4] });
    assert_eq!(load_icon(&[]), fallback_icon());
    assert_eq!(icon_of(None), fallback_icon());
    let own = || Picture { width: 1, height: 1, pixels: vec![1, 2, 3, 4] };
    assert_eq!(icon_of(Some(own())), own());
}

#[test]
fn icon_that_is_not_accepted_is_replaced() {
    let own = || Picture { width: 1, height: 1, pixels: vec![1, 2, 3, 4] };
    assert_eq!(usable_icon(own(), true), own());
    assert_eq!(usable_icon(own(), false), fallback_icon());
}

#[test]
fn window_icon_has_no_fallback() {
    let icon = load_window_icon(&encoded(ImageFormat::Png)).unwrap();
    assert_eq!((icon.width, icon.height), (3, 2));
    assert_eq!(icon.pixels, (0..24).map(|i| i * 10).collect::<Vec<u8>>());
    assert_eq!(load_window_icon(b"no picture"), None);
}

#[test]
fn decoded_pictures_have_just_their_pixels() {
    let gray = image::GrayImage::from_raw(5, 3, vec![9; 15]).unwrap();
    let gray_alpha = image::GrayAlphaImage::from_raw(5, 3, vec![9; 30]).unwrap();
    let deep = image::ImageBuffer::<image::Rgba<u16>, Vec<u16>>::from_raw(5, 3, vec![9; 60]);
    let mut files = Vec::new();
    for picture in [
        image::DynamicImage::from(gray),
        image::DynamicImage::from(gray_alpha),
        image::DynamicImage::from(deep.unwrap()),
    ] {
        let mut out = Cursor::new(Vec::new());
        picture.write_to(&mut out, ImageFormat::Png).unwrap();
        files.push(out.into_inner());
    }
    for bytes in files {
        assert_eq!(load_icon(&bytes).pixels.len(), 60);
        assert_eq!(load_capture("a.png", &bytes).unwrap().pixels.len(), 60);
    }
    assert_eq!(load_icon(b"no picture").pixels.len(), 4096);
}

#[test]
fn capture_is_decoded_by_its_name() {
    let png = encoded(ImageFormat::Png);
    let picture = load_capture("img_20240309_080507.png", &png).unwrap();
    assert_eq!((picture.width, picture.height), (3, 2));
    assert_eq!(picture.pixels, (0..24).map(|i| i * 10).collect::<Vec<u8>>());
    assert_eq!(load_capture("a.bmp", &png), None);
    assert_eq!(load_capture("a", &png), None);
    assert_eq!(load_capture("a.png", b"no picture"), None);
}

#[test]
fn capture_without_alpha_gets_it() {
    let image = RgbImage::from_raw(1, 1, vec![1, 2, 3]).unwrap();
    let mut out = Cursor::new(Vec::new());
    image.write_to(&mut out, ImageFormat::Png).unwrap();
    let picture = load_capture("a.png", &out.into_inner()).unwrap();
    assert_eq!(picture, ClipboardPicture { width: 1, height: 1, pixels: vec![1, 2, 3, 255] });
}

#[test]
fn clipboard_picture() {
    assert_eq!(clipboard_picture_of(None), None);
    let picture = Picture { width: 1, height: 2, pixels: vec![7; 8] };
    assert_eq!(
        clipboard_picture_of(Some(picture)),
        Some(ClipboardPicture { width: 1, height: 2, pixels: vec![7; 8] })
    );
}
