use vstd::prelude::*;
use vstd::utf8::is_scalar;

verus! {

/// A glyph's drawn extent inside the atlas bitmap, excluding margin padding.
///
/// All four fields are IEEE-754 single-precision bit patterns, in pixel units
/// of the target (shrunk) bitmap. The library treats the numeric values as
/// opaque words: it moves, stores and transforms them only through
/// caller-supplied scalar operations, so no floating-point arithmetic is
/// performed here.
#[derive(Clone, Copy, Debug, PartialEq, Eq, Structural)]
pub struct Rect {
    /// Horizontal position of the top-left corner.
    pub x: u32,
    /// Vertical position of the top-left corner.
    pub y: u32,
    /// Width.
    pub w: u32,
    /// Height.
    pub h: u32,
}

/// Per-glyph metadata. Numeric fields are single-precision bit patterns in
/// target-bitmap pixel units.
#[derive(Clone, Copy, Debug, PartialEq, Eq, Structural)]
pub struct CInfo {
    /// The inner bounding box, excluding margins.
    pub inner_bounding_box: Rect,
    /// The amount that the pen should move +x before drawing the character.
    pub pre_draw_advance: u32,
    /// The amount that the pen should move +x after drawing the character.
    pub post_draw_advance: u32,
    /// The amount of y that the pen should move for drawing this specific
    /// character. This value gets reset after drawing.
    pub height_offset: u32,
}

/// The finished atlas: font-wide metrics plus one entry per rasterized
/// codepoint. Metric fields are single-precision bit patterns.
#[derive(Debug)]
pub struct FontAtlas {
    /// The name of the font, derived from the font file's base name.
    pub font_name: String,
    /// The line height.
    pub line_height: u32,
    /// The font size (in px).
    pub fontsize: u32,
    /// The margin between characters in the font map image, in pixels.
    pub margin: u32,
    /// Character information, keyed by Unicode scalar value.
    pub map: Vec<(u32, CInfo)>,
}

/// The mathematical content of a [`FontAtlas`]: what the codec and the
/// transform contracts speak about.
#[verifier::ext_equal]
pub struct AtlasModel {
    pub font_name: Seq<char>,
    pub line_height: u32,
    pub fontsize: u32,
    pub margin: u32,
    pub map: Seq<(u32, CInfo)>,
}

impl View for FontAtlas {
    type V = AtlasModel;

    open spec fn view(&self) -> AtlasModel {
        AtlasModel {
            font_name: self.font_name@,
            line_height: self.line_height,
            fontsize: self.fontsize,
            margin: self.margin,
            map: self.map@,
        }
    }
}

/// The map is a mapping: no key occurs twice. The builder preserves this
/// from the rasterizer's output; the codec tolerates streams without it,
/// reading entries back exactly as they stand.
pub open spec fn keys_unique(m: Seq<(u32, CInfo)>) -> bool {
    forall|i: int, j: int| 0 <= i < j < m.len() ==> (#[trigger] m[i]).0 != (#[trigger] m[j]).0
}

impl AtlasModel {
    /// Well-formedness: every map key is a Unicode scalar value, and the
    /// name and the map are small enough for their lengths to ride in the
    /// codec's 32-bit counts. Every atlas held by executable code satisfies
    /// the length bounds; the key bound is what makes the keys characters.
    pub open spec fn wf(self) -> bool {
        &&& self.font_name.len() <= u32::MAX
        &&& self.map.len() <= u32::MAX
        &&& forall|i: int| 0 <= i < self.map.len() ==> is_scalar(#[trigger] self.map[i].0)
    }
}

} // verus!
