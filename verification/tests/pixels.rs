use ratex::pixels::{
    bgra32_to_rgba, blend_mask_over, blit_glyph_mask, div255, encode_png_rgba8, glyph_mask_fully_inside,
    gray8_to_rgba,
};
use tiny_skia::{FillRule, Paint, PathBuilder, Pixmap, Transform};

#[test]
fn div255_matches_the_lowp_shift() {
    assert_eq!(div255(0), 0);
    assert_eq!(div255(1), 1);
    assert_eq!(div255(255 * 255), 255);
    assert_eq!(div255(128 * 255), 128);
    for v in 0..=65025u32 {
        assert_eq!(div255(v), ((v + 255) >> 8) as u8);
    }
}

#[test]
fn opaque_paint_lerps_by_coverage() {
    let dst = [0, 0, 0, 0];
    // Full coverage gives the paint colour; none keeps the destination.
    assert_eq!(blend_mask_over([255, 255, 255, 255], dst, [10, 20, 30, 255]), [10, 20, 30, 255]);
    assert_eq!(blend_mask_over([0, 0, 0, 0], [5, 6, 7, 200], [10, 20, 30, 255]), [5, 6, 7, 200]);
    let half = blend_mask_over([128, 128, 128, 128], [0, 0, 0, 255], [255, 255, 255, 255]);
    assert_eq!(half, [128, 128, 128, 255]);
}

#[test]
fn translucent_paint_is_source_over() {
    let out = blend_mask_over([50, 0, 0, 100], [0, 0, 200, 255], [128, 0, 0, 128]);
    let inv = 255 - 100u32;
    assert_eq!(out[0] as u32, 50 + ((0 * inv + 255) >> 8));
    assert_eq!(out[2] as u32, (200 * inv + 255) >> 8);
    assert_eq!(out[3] as u32, 100 + ((255 * inv + 255) >> 8));
}

#[test]
fn blending_keeps_pixels_premultiplied() {
    for a in (0..=255u8).step_by(15) {
        for da in (0..=255u8).step_by(17) {
            let src = [a / 2, a, a / 3, a];
            let dst = [da, da / 2, 0, da];
            for paint_alpha in [128u8, 255] {
                let out = blend_mask_over(src, dst, [200, 100, 50, paint_alpha]);
                assert!(out[0] <= out[3] && out[1] <= out[3] && out[2] <= out[3]);
            }
        }
    }
}

#[test]
fn png_files_start_with_the_signature() {
    let png = encode_png_rgba8(&[255, 0, 0, 255, 0, 0, 255, 128], 2, 1).unwrap();
    assert_eq!(&png[..8], &[0x89, b'P', b'N', b'G', 0x0d, 0x0a, 0x1a, 0x0a]);
    // The same pixels give the same file.
    assert_eq!(png, encode_png_rgba8(&[255, 0, 0, 255, 0, 0, 255, 128], 2, 1).unwrap());
}

#[test]
fn empty_images_are_refused() {
    let err = encode_png_rgba8(&[], 0, 0).unwrap_err();
    assert!(err.starts_with("PNG encode error: "), "{err}");
}

#[test]
fn mask_blit_matches_direct_fill_path_for_opaque_and_alpha_paint() {
    let w = 32;
    let h = 32;
    let backgrounds: [[u8; 4]; 5] = [
        [255, 255, 255, 255],
        [238, 238, 238, 255],
        [17, 17, 17, 255],
        [0, 0, 0, 0],
        [51, 102, 153, 128],
    ];
    let colors: [[u8; 4]; 4] = [
        [0, 0, 0, 255],
        [51, 102, 153, 255],
        [51, 102, 153, 128],
        [255, 0, 0, 128],
    ];

    let mut pb = PathBuilder::new();
    pb.move_to(2.3, 3.7);
    pb.line_to(20.7, 2.9);
    pb.line_to(16.2, 22.6);
    pb.line_to(5.1, 17.2);
    pb.close();
    let path = pb.finish().expect("path");

    for bg in backgrounds {
        let mut base = Pixmap::new(w, h).unwrap();
        base.fill(tiny_skia::Color::from_rgba8(bg[0], bg[1], bg[2], bg[3]));
        for rgba in colors {
            let mut direct = base.clone();
            let mut paint = Paint::default();
            paint.set_color_rgba8(rgba[0], rgba[1], rgba[2], rgba[3]);
            paint.anti_alias = true;
            direct.fill_path(&path, &paint, FillRule::Winding, Transform::identity(), None);

            let bounds = path.bounds();
            let left = bounds.left().floor() - 1.0;
            let top = bounds.top().floor() - 1.0;
            let mask_w = ((bounds.right().ceil() + 1.0) - left).max(1.0) as u32;
            let mask_h = ((bounds.bottom().ceil() + 1.0) - top).max(1.0) as u32;
            let mut mask = Pixmap::new(mask_w, mask_h).unwrap();
            mask.fill(tiny_skia::Color::TRANSPARENT);
            mask.fill_path(&path, &paint, FillRule::Winding, Transform::from_translate(-left, -top), None);

            let mut cached = base.data().to_vec();
            blit_glyph_mask(&mut cached, w, h, mask.data(), mask_w, mask_h, left as i32, top as i32, rgba);
            assert_eq!(
                direct.data(),
                &cached[..],
                "mask blit differs from direct fill_path for background {bg:?} and color {rgba:?}"
            );
        }
    }
}

#[test]
fn blit_clips_at_every_edge() {
    // A 2x2 opaque white mask drawn at each corner of a 3x3 black image.
    let mask = vec![255u8; 2 * 2 * 4];
    for (x, y) in [(-1, -1), (2, -1), (-1, 2), (2, 2), (5, 5), (-5, 0)] {
        let mut dst: Vec<u8> = [0u8, 0, 0, 255].repeat(9);
        blit_glyph_mask(&mut dst, 3, 3, &mask, 2, 2, x, y, [255, 255, 255, 255]);
        for py in 0..3i32 {
            for px in 0..3i32 {
                let covered = x <= px && px < x + 2 && y <= py && py < y + 2;
                let i = ((py * 3 + px) * 4) as usize;
                let want = if covered { 255 } else { 0 };
                assert_eq!(dst[i], want, "pixel ({px},{py}) for mask at ({x},{y})");
                assert_eq!(dst[i + 3], 255);
            }
        }
    }
}

#[test]
fn transparent_mask_pixels_are_skipped() {
    let mut dst = vec![10u8, 20, 30, 40];
    blit_glyph_mask(&mut dst, 1, 1, &[0, 0, 0, 0], 1, 1, 0, 0, [1, 2, 3, 4]);
    assert_eq!(dst, vec![10, 20, 30, 40]);
}

#[test]
fn bitmap_strikes_become_rgba() {
    assert_eq!(bgra32_to_rgba(&[1, 2, 3, 4, 5, 6, 7, 8], 2, 1), Some(vec![3, 2, 1, 4, 7, 6, 5, 8]));
    assert_eq!(bgra32_to_rgba(&[1, 2, 3, 4], 2, 1), None);
    assert_eq!(bgra32_to_rgba(&[], 0, 7), Some(vec![]));
    assert_eq!(gray8_to_rgba(&[0, 128]), vec![0, 0, 0, 255, 128, 128, 128, 255]);
    assert!(glyph_mask_fully_inside(10, 10, 0, 0, 10, 10));
    assert!(!glyph_mask_fully_inside(10, 10, 1, 0, 10, 10));
    assert!(!glyph_mask_fully_inside(10, 10, -1, 0, 2, 2));
    assert!(glyph_mask_fully_inside(10, 10, 8, 8, 2, 2));
}
