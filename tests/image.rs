use fasternet::image::{prepare_image, BuiltImageBlock, ImageFormat};
use fasternet::style::ResourceKey;

#[test]
fn premultiply_scales_and_swaps() {
    let mut px = vec![200, 100, 50, 128, 10, 20, 30, 255];
    BuiltImageBlock::premultiply(&mut px);
    assert_eq!(px, vec![25, 50, 100, 128, 30, 20, 10, 255]);
}

#[test]
fn premultiply_transparent_is_black() {
    let mut px = vec![255, 255, 255, 0];
    BuiltImageBlock::premultiply(&mut px);
    assert_eq!(px, vec![0, 0, 0, 0]);
}

#[test]
fn opacity_by_format() {
    assert!(BuiltImageBlock::is_image_opaque(ImageFormat::BGRA8, &[1, 2, 3, 255, 4, 5, 6, 255]));
    assert!(!BuiltImageBlock::is_image_opaque(ImageFormat::BGRA8, &[1, 2, 3, 255, 4, 5, 6, 254]));
    assert!(BuiltImageBlock::is_image_opaque(ImageFormat::RGB8, &[0, 0, 0]));
    assert!(BuiltImageBlock::is_image_opaque(ImageFormat::RG8, &[]));
    assert!(!BuiltImageBlock::is_image_opaque(ImageFormat::A8, &[255]));
}

#[test]
fn prepare_premultiplies_rgba_only() {
    let p = prepare_image(1, 1, ImageFormat::BGRA8, vec![200, 100, 50, 128]);
    assert_eq!(p.bytes, vec![25, 50, 100, 128]);
    assert!(!p.opaque);
    let q = prepare_image(1, 1, ImageFormat::RGB8, vec![200, 100, 50]);
    assert_eq!(q.bytes, vec![200, 100, 50]);
    assert!(q.opaque);
}

#[test]
fn image_height_keeps_aspect_ratio() {
    let mut img = BuiltImageBlock::new(ResourceKey { namespace: 0, id: 1 });
    assert_eq!(img.height(40800), 0);
    img.width = 400;
    img.height = 300;
    assert_eq!(img.height(40800), 30600);
}
