use vstd::prelude::*;
use distance_field::DistanceFieldExt;
use crate::atlas::{keys_unique, CInfo, FontAtlas};
use crate::transform::{atlas_rescaled, build_atlas, identity_op};

verus! {

/// The signed-distance-field image that the distance-field transform
/// produces from a grayscale bitmap: a fixed function of the pixels, the
/// input dimensions, the output width and the distance clamp.
pub uninterp spec fn sdf_of(
    pixels: Seq<u8>,
    width: u32,
    height: u32,
    target_width: u32,
    max_distance: u32,
) -> Seq<u8>;

/// The bytes of a single-channel, mipless, 8-bit 2D texture container
/// holding the given square image: a fixed function of pixels and width.
pub uninterp spec fn dds_bytes_of(pixels: Seq<u8>, width: u32) -> Seq<u8>;

/// Relies on image::ImageBuffer::from_raw (Some exactly when the buffer
/// holds at least width * height bytes), image::DynamicImage::ImageLuma8, and
/// distance_field::DistanceFieldExt::distance_field for DynamicImage, which
/// returns a target_width x target_width grayscale image computed from the
/// input pixels, the sizes and the distance clamp alone (threshold fixed at
/// its default of 127). The transform is total for images with at least one
/// pixel and a positive clamp, which the bounds below guarantee: an empty
/// input image would make it index an empty threshold bitmap, and with a
/// clamp of zero its spiral search around a pixel never stops on a uniform
/// bitmap.
#[verifier::external_body]
fn distance_field_raw(
    pixels: &Vec<u8>,
    width: u32,
    height: u32,
    target_width: u32,
    max_distance: u32,
) -> (r: Option<Vec<u8>>)
    requires
        width >= 1,
        height >= 1,
        max_distance >= 1,
    ensures
        r is Some <==> pixels@.len() >= (width as int) * (height as int),
        r matches Some(out) ==> out@ == sdf_of(pixels@, width, height, target_width, max_distance)
            && out@.len() == (target_width as int) * (target_width as int),
{
    let img: image::GrayImage = match image::ImageBuffer::from_raw(width, height, pixels.clone())
    {
        Some(i) => i,
        None => return None,
    };
    let field = image::DynamicImage::ImageLuma8(img).distance_field(distance_field::Options {
        size: (target_width as usize, target_width as usize),
        max_distance: max_distance as usize,
        image_treshold: 127,
    });
    Some(field.into_raw())
}

/// Relies on ddsfile::Dds::new_dxgi (allocates a zero-filled data buffer of
/// exactly width * width bytes for the one-byte R8_UNorm format),
/// ddsfile::Dds::get_mut_data and ddsfile::Dds::write: the written bytes are
/// a function of the pixel data and the width alone — 148 bytes of magic and
/// headers, then the pixels verbatim — and none of the three calls fails for
/// a single 2D R8 texture whose stride fits in 32 bits, which the width
/// bound below guarantees (the stride is width * width).
#[verifier::external_body]
fn dds_encode_raw(pixels: &Vec<u8>, width: u32) -> (r: Option<Vec<u8>>)
    requires
        pixels@.len() == (width as int) * (width as int),
        width <= 0xFFFF,
    ensures
        r is Some,
        r matches Some(out) ==> out@ == dds_bytes_of(pixels@, width) && out@.len() == 148
            + pixels@.len() && out@.subrange(148, out@.len() as int) == pixels@,
{
    let params = ddsfile::NewDxgiParams {
        height: width, width, depth: None, format: ddsfile::DxgiFormat::R8_UNorm,
        mipmap_levels: None, array_layers: None, caps2: None, is_cubemap: false,
        resource_dimension: ddsfile::D3D10ResourceDimension::Texture2D,
        alpha_mode: ddsfile::AlphaMode::Opaque,
    };
    let mut dds = match ddsfile::Dds::new_dxgi(params) { Ok(d) => d, Err(_) => return None };
    match dds.get_mut_data(0) {
        Ok(data) => data.copy_from_slice(pixels.as_slice()),
        Err(_) => return None,
    }
    let mut out: Vec<u8> = Vec::new();
    match dds.write(&mut out) { Ok(_) => Some(out), Err(_) => None }
}

/// Encodes a square single-channel bitmap as a texture container: 148 bytes
/// of header, then the pixels. Succeeds exactly when the pixel buffer holds
/// width * width bytes and the width is at most 65535, the largest square
/// whose byte stride the container format's 32-bit fields can carry.
pub fn texture_bytes(pixels: &Vec<u8>, width: u32) -> (r: Option<Vec<u8>>)
    ensures
        r is Some <==> pixels@.len() == (width as int) * (width as int) && width <= 0xFFFF,
        r matches Some(out) ==> out@ == dds_bytes_of(pixels@, width) && out@.len() == 148
            + pixels@.len() && out@.subrange(148, out@.len() as int) == pixels@,
{
    if width > 0xFFFF {
        return None;
    }
    let w64: u64 = width as u64;
    proof {
        assert(w64 * w64 <= 0xFFFE_0001) by (nonlinear_arith)
            requires
                w64 <= 0xFFFF,
        ;
    }
    if (pixels.len() as u64) != w64 * w64 {
        return None;
    }
    dds_encode_raw(pixels, width)
}

/// Builds the target-resolution atlas and its signed-distance-field bitmap
/// from one rasterization's output: the bitmap goes through the
/// distance-field transform at the target width with the given clamp, and
/// every metric of every glyph goes through `scale` (division by the shrink
/// factor) field by field, keys and order kept. Succeeds exactly when the
/// bitmap has at least one pixel in each dimension, the buffer covers its
/// dimensions, and the distance clamp is positive.
pub fn build<F: Fn(u32) -> u32>(
    font_name: String,
    line_height: u32,
    fontsize: u32,
    margin: u32,
    entries: Vec<(u32, CInfo)>,
    bitmap: Vec<u8>,
    bitmap_width: u32,
    bitmap_height: u32,
    target_width: u32,
    max_distance: u32,
    scale: &F,
) -> (r: Option<(FontAtlas, Vec<u8>)>)
    requires
        forall|x: u32| call_requires(*scale, (x,)),
    ensures
        r is Some <==> bitmap_width >= 1 && bitmap_height >= 1 && max_distance >= 1
            && bitmap@.len() >= (bitmap_width as int) * (bitmap_height as int),
        r matches Some(pair) ==> atlas_rescaled(
            *scale,
            font_name@,
            line_height,
            fontsize,
            margin,
            entries@,
            pair.0@,
        ) && (identity_op(*scale) ==> pair.0.map@ == entries@) && (keys_unique(entries@)
            ==> keys_unique(pair.0.map@)) && pair.1@ == sdf_of(
            bitmap@,
            bitmap_width,
            bitmap_height,
            target_width,
            max_distance,
        ) && pair.1@.len() == (target_width as int) * (target_width as int),
{
    if bitmap_width == 0 || bitmap_height == 0 || max_distance == 0 {
        return None;
    }
    let sdf = match distance_field_raw(&bitmap, bitmap_width, bitmap_height, target_width,
        max_distance) {
        Some(s) => s,
        None => return None,
    };
    let atlas = build_atlas(font_name, line_height, fontsize, margin, entries, scale);
    Some((atlas, sdf))
}

} // verus!
