use cursor_optimizer::icon::{add_opaque_alpha, icon_from_frame, icon_pixels, PixelLayout};

fn encoded(width: u32, height: u32, color: png::ColorType, samples: &[u8]) -> Vec<u8> {
    let mut bytes: Vec<u8> = Vec::new();
    {
        let mut encoder = png::Encoder::new(&mut bytes, width, height);
        encoder.set_color(color);
        encoder.set_depth(png::BitDepth::Eight);
        let mut writer = encoder.write_header().unwrap();
        writer.write_image_data(samples).unwrap();
        writer.finish().unwrap();
    }
    bytes
}

#[test]
fn rgb_icons_become_opaque() {
    let bytes = encoded(2, 1, png::ColorType::Rgb, &[1, 2, 3, 4, 5, 6]);
    let image = icon_pixels(&bytes).unwrap();
    assert_eq!(image.width, 2);
    assert_eq!(image.height, 1);
    assert_eq!(image.pixels, vec![1, 2, 3, 255, 4, 5, 6, 255]);
}

#[test]
fn rgba_icons_keep_their_alpha() {
    let bytes = encoded(1, 2, png::ColorType::Rgba, &[9, 8, 7, 6, 5, 4, 3, 2]);
    let image = icon_pixels(&bytes).unwrap();
    assert_eq!((image.width, image.height), (1, 2));
    assert_eq!(image.pixels, vec![9, 8, 7, 6, 5, 4, 3, 2]);
}

#[test]
fn other_layouts_and_broken_images_give_no_icon() {
    let gray = encoded(2, 2, png::ColorType::Grayscale, &[0, 64, 128, 255]);
    assert!(icon_pixels(&gray).is_none());
    assert!(icon_pixels(&[0x89, b'P', b'N', b'G']).is_none());
    assert!(icon_pixels(&[]).is_none());
}

#[test]
fn opaque_alpha_drops_a_partial_pixel() {
    assert_eq!(add_opaque_alpha(&[10, 20, 30, 40, 50]), vec![10, 20, 30, 255]);
    assert_eq!(add_opaque_alpha(&[]), Vec::<u8>::new());
}

#[test]
fn frames_choose_the_icon_by_layout() {
    let rgb = icon_from_frame(Some((vec![1, 2, 3], 1, 1, PixelLayout::Rgb))).unwrap();
    assert_eq!(rgb.pixels, vec![1, 2, 3, 255]);
    let rgba = icon_from_frame(Some((vec![1, 2, 3, 4], 1, 1, PixelLayout::Rgba))).unwrap();
    assert_eq!(rgba.pixels, vec![1, 2, 3, 4]);
    assert!(icon_from_frame(Some((vec![7], 1, 1, PixelLayout::Indexed))).is_none());
    assert!(icon_from_frame(None).is_none());
}
