use siege_font::{build_atlas, decode, encode, select_ranges, CInfo, DecodeError, FontAtlas, Rect};

fn div_bits(shrink: f32) -> impl Fn(u32) -> u32 {
    move |bits: u32| (f32::from_bits(bits) / shrink).to_bits()
}

fn sample_cinfo() -> CInfo {
    CInfo {
        inner_bounding_box: Rect {
            x: 10.0f32.to_bits(),
            y: 20.0f32.to_bits(),
            w: 30.0f32.to_bits(),
            h: 40.0f32.to_bits(),
        },
        pre_draw_advance: 1.5f32.to_bits(),
        post_draw_advance: 2.5f32.to_bits(),
        height_offset: (-3.0f32).to_bits(),
    }
}

fn sample_atlas() -> FontAtlas {
    FontAtlas {
        font_name: String::from("planewalker"),
        line_height: 12.25f32.to_bits(),
        fontsize: 32.0f32.to_bits(),
        margin: 4.0f32.to_bits(),
        map: vec![('A' as u32, sample_cinfo()), ('b' as u32, sample_cinfo())],
    }
}

fn atlas_eq(a: &FontAtlas, b: &FontAtlas) {
    assert_eq!(a.font_name, b.font_name);
    assert_eq!(a.line_height, b.line_height);
    assert_eq!(a.fontsize, b.fontsize);
    assert_eq!(a.margin, b.margin);
    assert_eq!(a.map.len(), b.map.len());
    for (ea, eb) in a.map.iter().zip(b.map.iter()) {
        assert_eq!(ea, eb);
    }
}

#[test]
fn round_trip_sample() {
    let atlas = sample_atlas();
    let bytes = encode(&atlas);
    let back = decode(&bytes).expect("decoding an encoding must succeed");
    atlas_eq(&atlas, &back);
}

#[test]
fn round_trip_empty_map() {
    let atlas = FontAtlas {
        font_name: String::new(),
        line_height: 0,
        fontsize: 0,
        margin: 0,
        map: Vec::new(),
    };
    let bytes = encode(&atlas);
    assert_eq!(bytes, vec![0u8; 20]);
    let back = decode(&bytes).expect("decoding an encoding must succeed");
    atlas_eq(&atlas, &back);
}

#[test]
fn encoding_is_little_endian() {
    let atlas = FontAtlas {
        font_name: String::from("a"),
        line_height: 0x0102_0304,
        fontsize: 5,
        margin: 6,
        map: Vec::new(),
    };
    let bytes = encode(&atlas);
    assert_eq!(bytes.len(), 24);
    assert_eq!(&bytes[0..4], &[1, 0, 0, 0]);
    assert_eq!(&bytes[4..8], &[0x61, 0, 0, 0]);
    assert_eq!(&bytes[8..12], &[4, 3, 2, 1]);
    assert_eq!(&bytes[12..16], &[5, 0, 0, 0]);
    assert_eq!(&bytes[16..20], &[6, 0, 0, 0]);
    assert_eq!(&bytes[20..24], &[0, 0, 0, 0]);
}

#[test]
fn decode_rejects_truncation() {
    let atlas = sample_atlas();
    let bytes = encode(&atlas);
    for cut in [0usize, 3, 19, bytes.len() - 1] {
        let short: Vec<u8> = bytes[..cut].to_vec();
        assert!(matches!(decode(&short), Err(DecodeError::Truncated)));
    }
}

#[test]
fn decode_rejects_trailing_bytes() {
    let mut bytes = encode(&sample_atlas());
    bytes.push(0);
    assert!(matches!(decode(&bytes), Err(DecodeError::TrailingData)));
}

#[test]
fn decode_rejects_surrogate_key() {
    let mut atlas = sample_atlas();
    atlas.map[0].0 = 0xD800;
    let bytes = encode(&atlas);
    assert!(matches!(decode(&bytes), Err(DecodeError::InvalidChar)));
}

#[test]
fn decode_rejects_surrogate_name_character() {
    let bytes: Vec<u8> = vec![
        1, 0, 0, 0, // one name character
        0x00, 0xD8, 0, 0, // a surrogate word
        0, 0, 0, 0, 0, 0, 0, 0, 0, 0, 0, 0, // metrics
        0, 0, 0, 0, // no entries
    ];
    assert!(matches!(decode(&bytes), Err(DecodeError::InvalidChar)));
}

#[test]
fn basic_latin_range() {
    let ranges = select_ranges(&vec![String::from("Basic Latin")]);
    assert_eq!(ranges, vec![(0x0000, 0x007F)]);
}

#[test]
fn general_punctuation_subranges() {
    let ranges = select_ranges(&vec![String::from("General Punctuation")]);
    assert_eq!(ranges, vec![(0x2010, 0x2010), (0x2012, 0x2027), (0x2030, 0x205E)]);
}

#[test]
fn latin1_pw_subranges() {
    let ranges = select_ranges(&vec![String::from("Latin-1 Supplement PW")]);
    assert_eq!(
        ranges,
        vec![
            (0x0080, 0x00A9),
            (0x00AB, 0x00AB),
            (0x00AD, 0x00AE),
            (0x00B4, 0x00B8),
            (0x00BB, 0x00BB),
            (0x00BF, 0x00BF),
            (0x00C0, 0x00FF),
        ]
    );
}

#[test]
fn unknown_block_yields_nothing() {
    let ranges = select_ranges(&vec![String::from("Foo")]);
    assert_eq!(ranges, Vec::<(u32, u32)>::new());
}

#[test]
fn unknown_blocks_are_ignored_among_known() {
    let names = vec![
        String::from("Foo"),
        String::from("Basic Latin"),
        String::from("Bar"),
        String::from("Cyrillic"),
        String::from("Basic Latin"),
    ];
    let ranges = select_ranges(&names);
    assert_eq!(ranges, vec![(0x0000, 0x007F), (0x0400, 0x04FF), (0x0000, 0x007F)]);
}

#[test]
fn rescale_divides_every_field() {
    let shrink = 2.0f32;
    let scale = div_bits(shrink);
    let atlas = build_atlas(
        String::from("f"),
        10.0f32.to_bits(),
        64.0f32.to_bits(),
        8.0f32.to_bits(),
        vec![(65, sample_cinfo())],
        &scale,
    );
    assert_eq!(f32::from_bits(atlas.line_height), 10.0 / shrink);
    assert_eq!(f32::from_bits(atlas.fontsize), 64.0 / shrink);
    assert_eq!(f32::from_bits(atlas.margin), 8.0 / shrink);
    let (key, c) = atlas.map[0];
    assert_eq!(key, 65);
    assert_eq!(f32::from_bits(c.inner_bounding_box.x), 10.0 / shrink);
    assert_eq!(f32::from_bits(c.inner_bounding_box.y), 20.0 / shrink);
    assert_eq!(f32::from_bits(c.inner_bounding_box.w), 30.0 / shrink);
    assert_eq!(f32::from_bits(c.inner_bounding_box.h), 40.0 / shrink);
    assert_eq!(f32::from_bits(c.pre_draw_advance), 1.5 / shrink);
    assert_eq!(f32::from_bits(c.post_draw_advance), 2.5 / shrink);
    assert_eq!(f32::from_bits(c.height_offset), -3.0 / shrink);
}

#[test]
fn shrink_of_one_changes_nothing() {
    let big_width = 32u32;
    let target_width = 32u32;
    let shrink = big_width as f32 / target_width as f32;
    assert_eq!(shrink, 1.0);
    let scale = div_bits(shrink);
    let info = sample_cinfo();
    let atlas = build_atlas(
        String::from("f"),
        10.5f32.to_bits(),
        64.0f32.to_bits(),
        8.0f32.to_bits(),
        vec![(65, info)],
        &scale,
    );
    assert_eq!(atlas.line_height, 10.5f32.to_bits());
    assert_eq!(atlas.fontsize, 64.0f32.to_bits());
    assert_eq!(atlas.margin, 8.0f32.to_bits());
    assert_eq!(atlas.map[0].1, info);
}
