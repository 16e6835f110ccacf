use siege_font::{build, font_base_name, select_ranges, texture_bytes, CInfo, Rect};

fn div_bits(shrink: f32) -> impl Fn(u32) -> u32 {
    move |bits: u32| (f32::from_bits(bits) / shrink).to_bits()
}

/// An end-to-end build from synthetic rasterizer output: font size 64,
/// high-resolution margin 8, target width 32, the Basic Latin range, a
/// 64x64 high-resolution bitmap, so the shrink factor is 64/32 = 2.
#[test]
fn end_to_end_basic_latin() {
    let ranges = select_ranges(&vec![String::from("Basic Latin")]);
    assert_eq!(ranges, vec![(0x0000, 0x007F)]);

    let big_width = 64u32;
    let small_width = 32u32;
    let big_fontsize = 64.0f32;
    let big_margin = 8u32;
    let shrink = big_width as f32 / small_width as f32;

    let mut entries: Vec<(u32, CInfo)> = Vec::new();
    for (lo, hi) in &ranges {
        for cp in *lo..=*hi {
            let info = CInfo {
                inner_bounding_box: Rect {
                    x: (cp as f32).to_bits(),
                    y: 2.0f32.to_bits(),
                    w: 6.0f32.to_bits(),
                    h: 9.0f32.to_bits(),
                },
                pre_draw_advance: 0.5f32.to_bits(),
                post_draw_advance: 7.0f32.to_bits(),
                height_offset: 0.0f32.to_bits(),
            };
            entries.push((cp, info));
        }
    }

    let mut bitmap = vec![0u8; (big_width * big_width) as usize];
    for y in 20..40usize {
        for x in 20..40usize {
            bitmap[y * big_width as usize + x] = 255;
        }
    }

    let scale = div_bits(shrink);
    let (atlas, sdf) = build(
        String::from("testfont"),
        14.0f32.to_bits(),
        big_fontsize.to_bits(),
        (big_margin as f32).to_bits(),
        entries,
        bitmap.clone(),
        big_width,
        big_width,
        small_width,
        big_margin,
        &scale,
    )
    .expect("the distance-field transform accepts a matching bitmap");

    assert_eq!(f32::from_bits(atlas.fontsize), big_fontsize / shrink);
    assert_eq!(f32::from_bits(atlas.margin), big_margin as f32 / shrink);
    assert_eq!(f32::from_bits(atlas.line_height), 14.0 / shrink);
    assert_eq!(atlas.map.len(), 0x80);
    for (k, (cp, info)) in atlas.map.iter().enumerate() {
        assert_eq!(*cp, k as u32);
        assert!(f32::from_bits(info.inner_bounding_box.w) >= 0.0);
        assert!(f32::from_bits(info.inner_bounding_box.h) >= 0.0);
        assert_eq!(f32::from_bits(info.inner_bounding_box.w), 6.0 / shrink);
        assert_eq!(f32::from_bits(info.post_draw_advance), 7.0 / shrink);
    }

    // The distance field is a genuinely transformed image at the target size.
    assert_eq!(sdf.len(), (small_width * small_width) as usize);
    assert_ne!(sdf, bitmap);
    assert!(sdf.iter().any(|p| *p != 0));

    // The texture container carries the pixels behind a 148-byte header.
    let dds = texture_bytes(&sdf, small_width).expect("a matching buffer encodes");
    assert_eq!(&dds[0..4], b"DDS ");
    assert_eq!(dds.len(), 148 + sdf.len());
    assert_eq!(&dds[148..], &sdf[..]);

    // A buffer of the wrong size is refused.
    assert_eq!(texture_bytes(&sdf, small_width + 1), None);
}

#[test]
fn texture_rejects_oversized_width() {
    // The container's 32-bit stride holds at most a 65535-pixel square.
    let pixels = vec![0u8; 4];
    assert_eq!(texture_bytes(&pixels, 0x1_0000), None);
}

#[test]
fn build_rejects_empty_bitmap() {
    let scale = div_bits(1.0);
    let r = build(
        String::from("f"),
        0,
        0,
        0,
        Vec::new(),
        Vec::new(),
        0,
        0,
        1,
        1,
        &scale,
    );
    assert!(r.is_none());
}

#[test]
fn build_rejects_zero_distance_clamp() {
    // A clamp of zero would make the distance-field search spin forever.
    let scale = div_bits(1.0);
    let r = build(
        String::from("f"),
        0,
        0,
        0,
        Vec::new(),
        vec![0u8; 16],
        4,
        4,
        2,
        0,
        &scale,
    );
    assert!(r.is_none());
}

#[test]
fn font_name_strips_directory_and_extension() {
    assert_eq!(font_base_name(&String::from("fonts/Arial.ttf")), "Arial");
    assert_eq!(font_base_name(&String::from("planewalker.ttf")), "planewalker");
    assert_eq!(font_base_name(&String::from("noext")), "noext");
    assert_eq!(font_base_name(&String::from(".hidden")), ".hidden");
    assert_eq!(font_base_name(&String::from("dir.with.dots/file.tar.gz")), "file.tar");
    assert_eq!(font_base_name(&String::from("a/b/c")), "c");
}

#[test]
fn build_rejects_undersized_bitmap() {
    let scale = div_bits(1.0);
    let r = build(
        String::from("f"),
        0,
        0,
        0,
        Vec::new(),
        vec![0u8; 15],
        4,
        4,
        2,
        1,
        &scale,
    );
    assert!(r.is_none());
}
