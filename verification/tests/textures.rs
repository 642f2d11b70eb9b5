use phimakor::single::{scale_floor, scale_round};
use phimakor::texture::{
    blur_background_rgba, compress_enabled, decode_image, fit_texture_dim, flip_vertical,
    load_thumb, make_opaque, prepare_texture, thumb_source, ImageError, ThumbSource,
    MAX_TEXTURE_DIM,
};

#[test]
fn fit_texture_dim_caps_and_aligns() {
    assert_eq!(fit_texture_dim(1024, 768, true), (1024, 768));
    let (w, h) = fit_texture_dim(4096, 2048, true);
    assert!(w <= MAX_TEXTURE_DIM && h <= MAX_TEXTURE_DIM);
    assert_eq!(w % 4, 0);
    assert_eq!(h % 4, 0);
    let (w, h) = fit_texture_dim(4096, 2048, false);
    assert!(w <= MAX_TEXTURE_DIM && h <= MAX_TEXTURE_DIM);
    let (w, h) = fit_texture_dim(1000, 999, true);
    assert_eq!(w % 4, 0);
    assert_eq!(h % 4, 0);
    assert_eq!(w, 1000 & !3);
    assert_eq!(fit_texture_dim(1, 1, true), (1, 1));
    assert_eq!(fit_texture_dim(2, 3, true), (1, 1));
    assert_eq!(fit_texture_dim(5, 1, true), (4, 1));
}

#[test]
fn bc3_compress_roundtrip() {
    let w = 64usize;
    let h = 64usize;
    let mut rgba = Vec::with_capacity(w * h * 4);
    for y in 0..h {
        for x in 0..w {
            rgba.extend_from_slice(&[(x * 4) as u8, (y * 4) as u8, 128, (x + y) as u8]);
        }
    }
    let size = texpresso::Format::Bc3.compressed_size(w, h);
    assert_eq!(size, (w / 4) * (h / 4) * 16);
    let prepared = prepare_texture(&rgba, w as u32, h as u32, true);
    assert!(prepared.compressed);
    assert_eq!((prepared.w, prepared.h), (64, 64));
    let blocks = prepared.data;
    assert_eq!(blocks.len(), size);
    let mut direct = vec![0u8; size];
    texpresso::Format::Bc3.compress(&rgba, w, h, texpresso::Params::default(), &mut direct);
    assert_eq!(blocks, direct);
    let mut decoded = vec![0u8; w * h * 4];
    texpresso::Format::Bc3.decompress(&blocks, w, h, &mut decoded);
    let mut err = 0.0f64;
    for i in 0..rgba.len() {
        let d = (rgba[i] as f64 - decoded[i] as f64).abs();
        err += d;
    }
    let avg = err / rgba.len() as f64;
    assert!(avg < 20.0, "BC3 roundtrip avg error {avg:.1} too high");
    assert!(decoded[3] > 0 || decoded.iter().step_by(4).any(|&a| a > 0));
}

#[test]
fn textures_within_the_limit_are_kept() {
    let rgba: Vec<u8> = (0..4 * 3 * 4).map(|b| b as u8).collect();
    let p = prepare_texture(&rgba, 4, 3, false);
    assert_eq!(p.data, rgba);
    assert_eq!((p.w, p.h, p.orig_w, p.orig_h, p.compressed), (4, 3, 4, 3, false));
}

#[test]
fn large_textures_are_scaled_down() {
    let w = 4096u32;
    let h = 2u32;
    let rgba = vec![200u8; (w * h * 4) as usize];
    let p = prepare_texture(&rgba, w, h, false);
    assert_eq!((p.w, p.h), (2048, 1));
    assert_eq!((p.orig_w, p.orig_h), (4096, 2));
    assert_eq!(p.data.len(), 2048 * 4);
    assert!(p.data.iter().all(|&b| b == 200));
}

#[test]
fn scaling_agrees_with_single_precision() {
    let mut m: u32 = 2049;
    while m < 20000 {
        let s = 2048.0f32 / m as f32;
        let mut x: u32 = 1;
        while x <= m {
            assert_eq!(scale_round(x, 2048, m), ((x as f32 * s).round() as u32).max(1), "round {x} {m}");
            x += 37;
        }
        let s = 200.0f32 / m as f32;
        let mut x: u32 = 1;
        while x <= m {
            assert_eq!(scale_floor(x, 200, m), (x as f32 * s).max(1.0) as u32, "floor {x} {m}");
            x += 41;
        }
        m += 13;
    }
}

#[test]
fn compression_needs_both_wish_and_support() {
    assert!(compress_enabled(true, true));
    assert!(!compress_enabled(true, false));
    assert!(!compress_enabled(false, true));
}

#[test]
fn flipping_twice_gives_the_image_back() {
    let rgba: Vec<u8> = (0..2 * 3 * 4).map(|b| b as u8).collect();
    let once = flip_vertical(&rgba, 2, 3);
    assert_eq!(&once[0..8], &rgba[16..24]);
    assert_eq!(&once[8..16], &rgba[8..16]);
    assert_eq!(flip_vertical(&once, 2, 3), rgba);
}

fn png(w: u32, h: u32, f: fn(u32, u32) -> [u8; 4]) -> Vec<u8> {
    let mut img = image::RgbaImage::new(w, h);
    for y in 0..h {
        for x in 0..w {
            img.put_pixel(x, y, image::Rgba(f(x, y)));
        }
    }
    let mut out = std::io::Cursor::new(Vec::new());
    img.write_to(&mut out, image::ImageFormat::Png).unwrap();
    out.into_inner()
}

#[test]
fn images_are_decoded_upside_down() {
    let bytes = png(2, 2, |x, y| [x as u8 * 10, y as u8 * 20, 5, 255]);
    let img = match decode_image(&bytes) {
        Ok(i) => i,
        Err(_) => panic!("a valid image"),
    };
    assert_eq!((img.w, img.h), (2, 2));
    assert_eq!(&img.rgba[0..8], &[0, 20, 5, 255, 10, 20, 5, 255]);
    assert_eq!(&img.rgba[8..16], &[0, 0, 5, 255, 10, 0, 5, 255]);
    assert!(matches!(decode_image(b"no image"), Err(ImageError::Decode)));
}

#[test]
fn background_is_blurred_and_opaque() {
    let bytes = png(16, 16, |x, _| if x < 8 { [0, 0, 0, 255] } else { [255, 255, 255, 255] });
    let img = match blur_background_rgba(&bytes) {
        Ok(i) => i,
        Err(_) => panic!("a valid image"),
    };
    assert_eq!((img.w, img.h), (16, 16));
    assert_eq!(img.rgba.len(), 16 * 16 * 4);
    assert!(img.rgba.iter().skip(3).step_by(4).all(|&a| a == 255));
    let middle = img.rgba[(8 * 16 + 8) * 4];
    assert!(middle > 40 && middle < 215, "blurred edge: {middle}");
    assert!(matches!(blur_background_rgba(b"no image"), Err(ImageError::Decode)));
}

#[test]
fn narrow_backgrounds_are_blurred_too() {
    let even = png(2, 40, |_, _| [1, 2, 3, 255]);
    let img = blur_background_rgba(&even).unwrap_or_else(|_| panic!("a valid image"));
    assert_eq!((img.w, img.h), (2, 40));
    assert_eq!(img.rgba, [1, 2, 3, 255].repeat(80));
    let half = png(4, 40, |_, y| if y < 20 { [0, 0, 0, 255] } else { [255, 255, 255, 255] });
    let img = blur_background_rgba(&half).unwrap_or_else(|_| panic!("a valid image"));
    assert_eq!((img.w, img.h, img.rgba.len()), (4, 40, 640));
    assert!(img.rgba.iter().skip(3).step_by(4).all(|&a| a == 255));
    let (top, middle, bottom) = (img.rgba[0], img.rgba[20 * 16], img.rgba[39 * 16]);
    assert!(top < 40 && middle > 40 && middle < 215 && bottom > 215, "{top} {middle} {bottom}");
}

#[test]
fn colours_become_opaque_pixels() {
    assert_eq!(make_opaque(&vec![[1, 2, 3], [4, 5, 6]]), vec![1, 2, 3, 255, 4, 5, 6, 255]);
}

#[test]
fn thumbnails_are_small() {
    let bytes = png(400, 100, |_, _| [9, 9, 9, 255]);
    let t = load_thumb(&bytes).unwrap();
    assert_eq!((t.w, t.h), (200, 50));
    assert_eq!(t.rgba.len(), 200 * 50 * 4);
    let small = png(4, 2, |_, _| [9, 8, 7, 255]);
    let t = load_thumb(&small).unwrap();
    assert_eq!((t.w, t.h), (4, 2));
    assert_eq!(&t.rgba[0..4], &[9, 8, 7, 255]);
    assert!(load_thumb(b"no image").is_none());
}

#[test]
fn thumbnails_come_from_the_first_picture_there_is() {
    assert!(matches!(thumb_source(true, true, true), Some(ThumbSource::Illustration)));
    assert!(matches!(thumb_source(false, true, true), Some(ThumbSource::BgPng)));
    assert!(matches!(thumb_source(false, false, true), Some(ThumbSource::BackgroundPng)));
    assert!(thumb_source(false, false, false).is_none());
}
