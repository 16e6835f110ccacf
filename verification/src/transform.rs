use vstd::prelude::*;
use crate::atlas::{keys_unique, AtlasModel, CInfo, FontAtlas, Rect};

verus! {

/// `b` is `a` with every field put through the scalar operation `f`
/// independently: the per-field shape of the rescale transform.
pub open spec fn rect_rescaled<F: Fn(u32) -> u32>(f: F, a: Rect, b: Rect) -> bool {
    &&& call_ensures(f, (a.x,), b.x)
    &&& call_ensures(f, (a.y,), b.y)
    &&& call_ensures(f, (a.w,), b.w)
    &&& call_ensures(f, (a.h,), b.h)
}

/// `b` is `a` with every numeric field put through `f` independently.
pub open spec fn cinfo_rescaled<F: Fn(u32) -> u32>(f: F, a: CInfo, b: CInfo) -> bool {
    &&& rect_rescaled(f, a.inner_bounding_box, b.inner_bounding_box)
    &&& call_ensures(f, (a.pre_draw_advance,), b.pre_draw_advance)
    &&& call_ensures(f, (a.post_draw_advance,), b.post_draw_advance)
    &&& call_ensures(f, (a.height_offset,), b.height_offset)
}

/// `f` can only behave as the identity: whatever it returns equals its
/// argument. This is the shape of a shrink factor of one.
pub open spec fn identity_op<F: Fn(u32) -> u32>(f: F) -> bool {
    forall|x: u32, y: u32| call_ensures(f, (x,), y) ==> y == x
}

/// Rescales one bounding box, field by field, through `scale`.
pub fn rescale_rect<F: Fn(u32) -> u32>(r: &Rect, scale: &F) -> (out: Rect)
    requires
        forall|x: u32| call_requires(*scale, (x,)),
    ensures
        rect_rescaled(*scale, *r, out),
        identity_op(*scale) ==> out == *r,
{
    Rect { x: scale(r.x), y: scale(r.y), w: scale(r.w), h: scale(r.h) }
}

/// Rescales one glyph's metadata, field by field, through `scale`. No field
/// is omitted and no field depends on another.
pub fn rescale_cinfo<F: Fn(u32) -> u32>(c: &CInfo, scale: &F) -> (out: CInfo)
    requires
        forall|x: u32| call_requires(*scale, (x,)),
    ensures
        cinfo_rescaled(*scale, *c, out),
        identity_op(*scale) ==> out == *c,
{
    CInfo {
        inner_bounding_box: rescale_rect(&c.inner_bounding_box, scale),
        pre_draw_advance: scale(c.pre_draw_advance),
        post_draw_advance: scale(c.post_draw_advance),
        height_offset: scale(c.height_offset),
    }
}

/// The atlas-level rescale relation: the name is carried over unchanged,
/// the three font-wide metrics go through `f`, and the map keeps its keys
/// and order while every entry's metadata goes through `f` field by field.
pub open spec fn atlas_rescaled<F: Fn(u32) -> u32>(
    f: F,
    font_name: Seq<char>,
    line_height: u32,
    fontsize: u32,
    margin: u32,
    entries: Seq<(u32, CInfo)>,
    out: AtlasModel,
) -> bool {
    &&& out.font_name == font_name
    &&& call_ensures(f, (line_height,), out.line_height)
    &&& call_ensures(f, (fontsize,), out.fontsize)
    &&& call_ensures(f, (margin,), out.margin)
    &&& out.map.len() == entries.len()
    &&& forall|i: int|
        0 <= i < entries.len() ==> (#[trigger] out.map[i]).0 == entries[i].0 && cinfo_rescaled(
            f,
            entries[i].1,
            out.map[i].1,
        )
}

/// Produces the target-resolution atlas from high-resolution glyph data by
/// putting every numeric quantity through the scalar operation `scale`
/// (division by the shrink factor), one field at a time. Keys and entry
/// order are preserved exactly; when `scale` behaves as the identity (a
/// shrink factor of one), the metadata comes out unchanged.
pub fn build_atlas<F: Fn(u32) -> u32>(
    font_name: String,
    line_height: u32,
    fontsize: u32,
    margin: u32,
    entries: Vec<(u32, CInfo)>,
    scale: &F,
) -> (out: FontAtlas)
    requires
        forall|x: u32| call_requires(*scale, (x,)),
    ensures
        atlas_rescaled(*scale, font_name@, line_height, fontsize, margin, entries@, out@),
        identity_op(*scale) ==> out.map@ == entries@,
        keys_unique(entries@) ==> keys_unique(out.map@),
{
    let mut map: Vec<(u32, CInfo)> = Vec::new();
    let mut idx: usize = 0;
    while idx < entries.len()
        invariant
            idx <= entries.len(),
            map@.len() == idx,
            forall|x: u32| call_requires(*scale, (x,)),
            forall|i: int|
                0 <= i < idx ==> (#[trigger] map@[i]).0 == entries@[i].0 && cinfo_rescaled(
                    *scale,
                    entries@[i].1,
                    map@[i].1,
                ),
            identity_op(*scale) ==> map@ == entries@.take(idx as int),
        decreases entries.len() - idx,
    {
        let (key, info) = entries[idx];
        let scaled = rescale_cinfo(&info, scale);
        map.push((key, scaled));
        proof {
            if identity_op(*scale) {
                assert(map@ =~= entries@.take(idx + 1));
            }
        }
        idx = idx + 1;
    }
    proof {
        assert(entries@.take(entries@.len() as int) =~= entries@);
        if keys_unique(entries@) {
            assert forall|p: int, q: int| 0 <= p < q < map@.len() implies (#[trigger] map@[p]).0
                != (#[trigger] map@[q]).0 by {
                assert(map@[p].0 == entries@[p].0);
                assert(map@[q].0 == entries@[q].0);
            }
        }
    }
    let line_height = scale(line_height);
    let fontsize = scale(fontsize);
    let margin = scale(margin);
    FontAtlas { font_name, line_height, fontsize, margin, map }
}

} // verus!
