use launchpad::pixels::{
    alpha_channel_valid, apply_mask_alpha, bgra_to_rgba, count_nonzero_alpha, crop, encode_rgba_png,
    icon_pixels_to_png, make_opaque, mask_to_alpha, opaque_bounds, trim_transparent,
};

fn image(w: u32, h: u32, visible: &[(u32, u32)]) -> Vec<u8> {
    let mut p = vec![0u8; (w * h * 4) as usize];
    for (i, px) in p.chunks_exact_mut(4).enumerate() {
        let i = i as u8;
        px[0] = i;
        px[1] = i.wrapping_add(1);
        px[2] = i.wrapping_add(2);
    }
    for &(x, y) in visible {
        p[((y * w + x) * 4 + 3) as usize] = 200;
    }
    p
}

#[test]
fn trim_cuts_transparent_margins() {
    let p = image(5, 4, &[(1, 1), (3, 2)]);
    let (out, w, h) = trim_transparent(p.clone(), 5, 4);
    assert_eq!((w, h), (3, 2));
    assert_eq!(out.len(), 3 * 2 * 4);
    for y in 0..2u32 {
        for x in 0..3u32 {
            for c in 0..4u32 {
                assert_eq!(out[((y * 3 + x) * 4 + c) as usize], p[(((y + 1) * 5 + x + 1) * 4 + c) as usize]);
            }
        }
    }
}

#[test]
fn trim_ignores_faint_pixels_and_keeps_empty_images() {
    let mut p = image(3, 3, &[]);
    p[3] = 8; // alpha 8 is not visible
    let (out, w, h) = trim_transparent(p.clone(), 3, 3);
    assert_eq!((out, w, h), (p, 3, 3));
    let (out, w, h) = trim_transparent(Vec::new(), 0, 0);
    assert_eq!((out, w, h), (Vec::new(), 0, 0));
}

#[test]
fn trim_twice_is_trim_once() {
    let p = image(6, 5, &[(2, 1), (4, 3), (3, 2)]);
    let (once, w1, h1) = trim_transparent(p, 6, 5);
    let (twice, w2, h2) = trim_transparent(once.clone(), w1, h1);
    assert_eq!((once, w1, h1), (twice, w2, h2));
}

#[test]
fn bounds_and_crop() {
    let p = image(4, 4, &[(0, 3), (2, 0)]);
    assert_eq!(opaque_bounds(&p, 4, 4), Some((0, 0, 2, 3)));
    assert_eq!(opaque_bounds(&image(2, 2, &[]), 2, 2), None);
    let c = crop(&p, 4, 4, 1, 1, 2, 2);
    assert_eq!(c.len(), 16);
    assert_eq!(&c[0..4], &p[20..24]);
}

#[test]
fn channel_swap_and_alpha() {
    let mut p = vec![1, 2, 3, 4, 5, 6, 7, 0, 9];
    bgra_to_rgba(&mut p);
    assert_eq!(p, vec![3, 2, 1, 4, 7, 6, 5, 0, 9]);
    assert_eq!(count_nonzero_alpha(&p), 1);
    make_opaque(&mut p);
    assert_eq!(p, vec![3, 2, 1, 255, 7, 6, 5, 255, 9]);
    apply_mask_alpha(&mut p, &vec![0]);
    assert_eq!(p, vec![3, 2, 1, 0, 7, 6, 5, 255, 9]);
}

#[test]
fn alpha_channel_needs_more_than_one_in_32() {
    let mut p = vec![0u8; 64 * 4];
    p[3] = 1;
    p[7] = 1;
    assert!(!alpha_channel_valid(&p)); // 2 of 64 is not more than 64/32
    p[11] = 1;
    assert!(alpha_channel_valid(&p));
    assert!(alpha_channel_valid(&vec![0, 0, 0, 1]));
    assert!(!alpha_channel_valid(&Vec::new()));
}

#[test]
fn mask_bits_become_alpha() {
    // width 10 -> 4 bytes per row; two rows
    let mask = vec![0b1010_0000, 0b0100_0000, 0, 0, 0xFF, 0xFF, 0, 0];
    let a = mask_to_alpha(&mask, 4, 2, 10, 3);
    assert_eq!(a.len(), 30);
    assert_eq!(&a[0..10], &[255, 0, 255, 0, 0, 0, 0, 0, 0, 255]);
    assert_eq!(&a[10..20], &[255; 10]);
    assert_eq!(&a[20..30], &[0; 10]); // only two mask rows
    let narrow = mask_to_alpha(&vec![0xFF], 1, 1, 10, 1);
    assert_eq!(narrow, vec![255, 255, 255, 255, 255, 255, 255, 255, 0, 0]);
}

#[test]
fn icon_png_round_trip() {
    // 4x4 BGRA icon, no alpha channel, mask makes the centre opaque.
    let w = 4u32;
    let h = 4u32;
    let mut bgra = vec![0u8; 64];
    for i in 0..16 {
        bgra[i * 4] = 10; // blue
        bgra[i * 4 + 2] = 200; // red
    }
    let mut mask = vec![0u8; 16];
    for (x, y) in [(1, 1), (2, 1), (1, 2), (2, 2)] {
        mask[y * 4 + x] = 255;
    }
    let png = icon_pixels_to_png(bgra, w, h, Some(mask)).unwrap();
    let img = image::load_from_memory(&png).unwrap().to_rgba8();
    assert_eq!(img.dimensions(), (2, 2));
    assert!(img.pixels().all(|p| p.0 == [200, 0, 10, 255]));
}

#[test]
fn icon_png_without_mask_is_opaque() {
    let bgra = vec![1, 2, 3, 0, 4, 5, 6, 0];
    let png = icon_pixels_to_png(bgra, 2, 1, None).unwrap();
    let img = image::load_from_memory(&png).unwrap().to_rgba8();
    assert_eq!(img.dimensions(), (2, 1));
    assert_eq!(img.get_pixel(0, 0).0, [3, 2, 1, 255]);
    assert_eq!(img.get_pixel(1, 0).0, [6, 5, 4, 255]);
}

#[test]
fn encode_checks_buffer_size() {
    assert!(encode_rgba_png(&vec![0u8; 7], 2, 1).is_none());
    let png = encode_rgba_png(&vec![9u8; 8], 2, 1).unwrap();
    assert_eq!(&png[1..4], b"PNG");
}
