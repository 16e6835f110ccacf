use vstd::prelude::*;
use vstd::utf8::is_scalar;
use crate::atlas::{AtlasModel, CInfo, FontAtlas, Rect};

verus! {

// --- Little-endian 32-bit words ------------------------------------------

/// The four little-endian bytes of a 32-bit word.
pub open spec fn u32_le(x: u32) -> Seq<u8> {
    seq![
        (x & 0xFF) as u8,
        ((x >> 8) & 0xFF) as u8,
        ((x >> 16) & 0xFF) as u8,
        ((x >> 24) & 0xFF) as u8,
    ]
}

/// The 32-bit word held by four little-endian bytes.
pub open spec fn u32_of_le(s: Seq<u8>) -> u32
    recommends
        s.len() == 4,
{
    (s[0] as u32) | ((s[1] as u32) << 8) | ((s[2] as u32) << 16) | ((s[3] as u32) << 24)
}

proof fn lemma_u32_le_roundtrip(x: u32)
    ensures
        u32_of_le(u32_le(x)) == x,
{
    assert(((x & 0xFF) as u8 as u32) | ((((x >> 8) & 0xFF) as u8 as u32) << 8) | ((((x >> 16)
        & 0xFF) as u8 as u32) << 16) | ((((x >> 24) & 0xFF) as u8 as u32) << 24) == x)
        by (bit_vector);
}

proof fn lemma_u32_le_reconstruct(s: Seq<u8>)
    requires
        s.len() == 4,
    ensures
        u32_le(u32_of_le(s)) == s,
{
    let b0: u8 = s[0];
    let b1: u8 = s[1];
    let b2: u8 = s[2];
    let b3: u8 = s[3];
    assert((((b0 as u32) | ((b1 as u32) << 8) | ((b2 as u32) << 16) | ((b3 as u32) << 24))
        & 0xFF) as u8 == b0) by (bit_vector);
    assert(((((b0 as u32) | ((b1 as u32) << 8) | ((b2 as u32) << 16) | ((b3 as u32) << 24))
        >> 8) & 0xFF) as u8 == b1) by (bit_vector);
    assert(((((b0 as u32) | ((b1 as u32) << 8) | ((b2 as u32) << 16) | ((b3 as u32) << 24))
        >> 16) & 0xFF) as u8 == b2) by (bit_vector);
    assert(((((b0 as u32) | ((b1 as u32) << 8) | ((b2 as u32) << 16) | ((b3 as u32) << 24))
        >> 24) & 0xFF) as u8 == b3) by (bit_vector);
    assert(u32_le(u32_of_le(s)) =~= s);
}

proof fn lemma_u32_le_eq(x: u32, y: u32)
    requires
        u32_le(x) == u32_le(y),
    ensures
        x == y,
{
    lemma_u32_le_roundtrip(x);
    lemma_u32_le_roundtrip(y);
}

/// Two concatenations with equally long heads agree piece by piece.
proof fn lemma_concat_split(a1: Seq<u8>, b1: Seq<u8>, a2: Seq<u8>, b2: Seq<u8>)
    requires
        a1.len() == a2.len(),
        a1 + b1 == a2 + b2,
    ensures
        a1 == a2,
        b1 == b2,
{
    let n = a1.len() as int;
    let whole = a1 + b1;
    assert(a1 =~= whole.subrange(0, n));
    assert(a2 =~= whole.subrange(0, n));
    assert(b1 =~= whole.subrange(n, whole.len() as int));
    assert(b2 =~= whole.subrange(n, whole.len() as int));
}

// --- The encoding itself ---------------------------------------------------

/// The name's characters, each as a little-endian 32-bit scalar value.
pub open spec fn name_bytes(s: Seq<char>) -> Seq<u8>
    decreases s.len(),
{
    if s.len() == 0 {
        Seq::empty()
    } else {
        u32_le(s[0] as u32) + name_bytes(s.drop_first())
    }
}

/// A bounding box: its four fields in order.
pub open spec fn rect_bytes(r: Rect) -> Seq<u8> {
    u32_le(r.x) + u32_le(r.y) + u32_le(r.w) + u32_le(r.h)
}

/// One glyph's metadata: the box, then the three advances, 28 bytes.
pub open spec fn cinfo_bytes(c: CInfo) -> Seq<u8> {
    rect_bytes(c.inner_bounding_box) + u32_le(c.pre_draw_advance) + u32_le(c.post_draw_advance)
        + u32_le(c.height_offset)
}

/// The map's entries in order: key, then metadata, 32 bytes each.
pub open spec fn entries_bytes(m: Seq<(u32, CInfo)>) -> Seq<u8>
    decreases m.len(),
{
    if m.len() == 0 {
        Seq::empty()
    } else {
        u32_le(m[0].0) + cinfo_bytes(m[0].1) + entries_bytes(m.drop_first())
    }
}

/// The whole stream: name count, name characters, the three font-wide
/// metrics, entry count, entries. Fixed layout, little-endian, no schema
/// version.
pub open spec fn encoded(a: AtlasModel) -> Seq<u8> {
    u32_le(a.font_name.len() as u32) + name_bytes(a.font_name) + u32_le(a.line_height) + u32_le(
        a.fontsize,
    ) + u32_le(a.margin) + u32_le(a.map.len() as u32) + entries_bytes(a.map)
}

// --- Length and step lemmas ------------------------------------------------

proof fn lemma_name_bytes_len(s: Seq<char>)
    ensures
        name_bytes(s).len() == 4 * s.len(),
    decreases s.len(),
{
    if s.len() > 0 {
        lemma_name_bytes_len(s.drop_first());
    }
}

proof fn lemma_entries_bytes_len(m: Seq<(u32, CInfo)>)
    ensures
        entries_bytes(m).len() == 32 * m.len(),
    decreases m.len(),
{
    if m.len() > 0 {
        lemma_entries_bytes_len(m.drop_first());
    }
}

proof fn lemma_name_bytes_push(s: Seq<char>, c: char)
    ensures
        name_bytes(s.push(c)) == name_bytes(s) + u32_le(c as u32),
    decreases s.len(),
{
    if s.len() == 0 {
        assert(name_bytes(Seq::<char>::empty()) == Seq::<u8>::empty());
        assert(s.push(c)[0] == c);
        assert(s.push(c).drop_first() =~= Seq::<char>::empty());
        assert(name_bytes(s.push(c)) == u32_le(c as u32) + name_bytes(Seq::<char>::empty()));
        assert(name_bytes(s.push(c)) =~= name_bytes(s) + u32_le(c as u32));
    } else {
        lemma_name_bytes_push(s.drop_first(), c);
        assert(s.push(c).drop_first() =~= s.drop_first().push(c));
        assert(s.push(c)[0] == s[0]);
        assert(name_bytes(s.push(c)) == u32_le(s[0] as u32) + name_bytes(s.drop_first().push(c)));
        assert(name_bytes(s.push(c)) =~= name_bytes(s) + u32_le(c as u32));
    }
}

proof fn lemma_entries_bytes_push(m: Seq<(u32, CInfo)>, e: (u32, CInfo))
    ensures
        entries_bytes(m.push(e)) == entries_bytes(m) + u32_le(e.0) + cinfo_bytes(e.1),
    decreases m.len(),
{
    if m.len() == 0 {
        assert(entries_bytes(Seq::<(u32, CInfo)>::empty()) == Seq::<u8>::empty());
        assert(m.push(e)[0] == e);
        assert(m.push(e).drop_first() =~= Seq::<(u32, CInfo)>::empty());
        assert(entries_bytes(m.push(e)) == u32_le(e.0) + cinfo_bytes(e.1) + entries_bytes(
            Seq::<(u32, CInfo)>::empty(),
        ));
        assert(entries_bytes(m.push(e)) =~= entries_bytes(m) + u32_le(e.0) + cinfo_bytes(e.1));
    } else {
        lemma_entries_bytes_push(m.drop_first(), e);
        assert(m.push(e).drop_first() =~= m.drop_first().push(e));
        assert(m.push(e)[0] == m[0]);
        assert(entries_bytes(m.push(e)) == u32_le(m[0].0) + cinfo_bytes(m[0].1) + entries_bytes(
            m.drop_first().push(e),
        ));
        assert(entries_bytes(m.push(e)) =~= entries_bytes(m) + u32_le(e.0) + cinfo_bytes(e.1));
    }
}

/// Where each character's word sits inside the name's bytes.
proof fn lemma_name_bytes_index(s: Seq<char>, k: int)
    requires
        0 <= k < s.len(),
    ensures
        name_bytes(s).subrange(4 * k, 4 * k + 4) == u32_le(s[k] as u32),
    decreases k,
{
    lemma_name_bytes_len(s);
    lemma_name_bytes_len(s.drop_first());
    if k == 0 {
        assert(name_bytes(s).subrange(0, 4) =~= u32_le(s[0] as u32));
    } else {
        lemma_name_bytes_index(s.drop_first(), k - 1);
        assert(name_bytes(s).subrange(4 * k, 4 * k + 4) =~= name_bytes(s.drop_first()).subrange(
            4 * (k - 1),
            4 * (k - 1) + 4,
        ));
    }
}

/// Where each entry's key word sits inside the entries' bytes.
proof fn lemma_entries_bytes_index(m: Seq<(u32, CInfo)>, k: int)
    requires
        0 <= k < m.len(),
    ensures
        entries_bytes(m).subrange(32 * k, 32 * k + 4) == u32_le(m[k].0),
    decreases k,
{
    lemma_entries_bytes_len(m);
    lemma_entries_bytes_len(m.drop_first());
    if k == 0 {
        assert(entries_bytes(m).subrange(0, 4) =~= u32_le(m[0].0));
    } else {
        lemma_entries_bytes_index(m.drop_first(), k - 1);
        assert(entries_bytes(m).subrange(32 * k, 32 * k + 4) =~= entries_bytes(
            m.drop_first(),
        ).subrange(32 * (k - 1), 32 * (k - 1) + 4));
    }
}

// --- Injectivity: the stream determines the atlas ---------------------------

proof fn lemma_name_bytes_injective(s1: Seq<char>, s2: Seq<char>)
    requires
        s1.len() == s2.len(),
        name_bytes(s1) == name_bytes(s2),
    ensures
        s1 == s2,
    decreases s1.len(),
{
    if s1.len() == 0 {
        assert(s1 =~= s2);
    } else {
        lemma_concat_split(
            u32_le(s1[0] as u32),
            name_bytes(s1.drop_first()),
            u32_le(s2[0] as u32),
            name_bytes(s2.drop_first()),
        );
        lemma_u32_le_eq(s1[0] as u32, s2[0] as u32);
        vstd::utf8::char_u32_cast(s1[0], s1[0] as u32);
        vstd::utf8::char_u32_cast(s2[0], s1[0] as u32);
        assert(s1[0] == s2[0]);
        lemma_name_bytes_injective(s1.drop_first(), s2.drop_first());
        assert forall|i: int| 0 <= i < s1.len() implies s1[i] == s2[i] by {
            if i > 0 {
                assert(s1[i] == s1.drop_first()[i - 1]);
                assert(s2[i] == s2.drop_first()[i - 1]);
            }
        }
        assert(s1 =~= s2);
    }
}

proof fn lemma_cinfo_bytes_injective(c1: CInfo, c2: CInfo)
    requires
        cinfo_bytes(c1) == cinfo_bytes(c2),
    ensures
        c1 == c2,
{
    let r1 = c1.inner_bounding_box;
    let r2 = c2.inner_bounding_box;
    assert(cinfo_bytes(c1) =~= u32_le(r1.x) + (u32_le(r1.y) + (u32_le(r1.w) + (u32_le(r1.h) + (
    u32_le(c1.pre_draw_advance) + (u32_le(c1.post_draw_advance) + u32_le(c1.height_offset)))))));
    assert(cinfo_bytes(c2) =~= u32_le(r2.x) + (u32_le(r2.y) + (u32_le(r2.w) + (u32_le(r2.h) + (
    u32_le(c2.pre_draw_advance) + (u32_le(c2.post_draw_advance) + u32_le(c2.height_offset)))))));
    lemma_concat_split(
        u32_le(r1.x),
        u32_le(r1.y) + (u32_le(r1.w) + (u32_le(r1.h) + (u32_le(c1.pre_draw_advance) + (u32_le(
            c1.post_draw_advance,
        ) + u32_le(c1.height_offset))))),
        u32_le(r2.x),
        u32_le(r2.y) + (u32_le(r2.w) + (u32_le(r2.h) + (u32_le(c2.pre_draw_advance) + (u32_le(
            c2.post_draw_advance,
        ) + u32_le(c2.height_offset))))),
    );
    lemma_concat_split(
        u32_le(r1.y),
        u32_le(r1.w) + (u32_le(r1.h) + (u32_le(c1.pre_draw_advance) + (u32_le(
            c1.post_draw_advance,
        ) + u32_le(c1.height_offset)))),
        u32_le(r2.y),
        u32_le(r2.w) + (u32_le(r2.h) + (u32_le(c2.pre_draw_advance) + (u32_le(
            c2.post_draw_advance,
        ) + u32_le(c2.height_offset)))),
    );
    lemma_concat_split(
        u32_le(r1.w),
        u32_le(r1.h) + (u32_le(c1.pre_draw_advance) + (u32_le(c1.post_draw_advance) + u32_le(
            c1.height_offset,
        ))),
        u32_le(r2.w),
        u32_le(r2.h) + (u32_le(c2.pre_draw_advance) + (u32_le(c2.post_draw_advance) + u32_le(
            c2.height_offset,
        ))),
    );
    lemma_concat_split(
        u32_le(r1.h),
        u32_le(c1.pre_draw_advance) + (u32_le(c1.post_draw_advance) + u32_le(c1.height_offset)),
        u32_le(r2.h),
        u32_le(c2.pre_draw_advance) + (u32_le(c2.post_draw_advance) + u32_le(c2.height_offset)),
    );
    lemma_concat_split(
        u32_le(c1.pre_draw_advance),
        u32_le(c1.post_draw_advance) + u32_le(c1.height_offset),
        u32_le(c2.pre_draw_advance),
        u32_le(c2.post_draw_advance) + u32_le(c2.height_offset),
    );
    lemma_concat_split(
        u32_le(c1.post_draw_advance),
        u32_le(c1.height_offset),
        u32_le(c2.post_draw_advance),
        u32_le(c2.height_offset),
    );
    lemma_u32_le_eq(r1.x, r2.x);
    lemma_u32_le_eq(r1.y, r2.y);
    lemma_u32_le_eq(r1.w, r2.w);
    lemma_u32_le_eq(r1.h, r2.h);
    lemma_u32_le_eq(c1.pre_draw_advance, c2.pre_draw_advance);
    lemma_u32_le_eq(c1.post_draw_advance, c2.post_draw_advance);
    lemma_u32_le_eq(c1.height_offset, c2.height_offset);
}

proof fn lemma_entries_bytes_injective(m1: Seq<(u32, CInfo)>, m2: Seq<(u32, CInfo)>)
    requires
        m1.len() == m2.len(),
        entries_bytes(m1) == entries_bytes(m2),
    ensures
        m1 == m2,
    decreases m1.len(),
{
    if m1.len() == 0 {
        assert(m1 =~= m2);
    } else {
        assert(entries_bytes(m1) =~= u32_le(m1[0].0) + (cinfo_bytes(m1[0].1) + entries_bytes(
            m1.drop_first(),
        )));
        assert(entries_bytes(m2) =~= u32_le(m2[0].0) + (cinfo_bytes(m2[0].1) + entries_bytes(
            m2.drop_first(),
        )));
        lemma_concat_split(
            u32_le(m1[0].0),
            cinfo_bytes(m1[0].1) + entries_bytes(m1.drop_first()),
            u32_le(m2[0].0),
            cinfo_bytes(m2[0].1) + entries_bytes(m2.drop_first()),
        );
        lemma_concat_split(
            cinfo_bytes(m1[0].1),
            entries_bytes(m1.drop_first()),
            cinfo_bytes(m2[0].1),
            entries_bytes(m2.drop_first()),
        );
        lemma_u32_le_eq(m1[0].0, m2[0].0);
        lemma_cinfo_bytes_injective(m1[0].1, m2[0].1);
        assert(m1[0] == m2[0]);
        lemma_entries_bytes_injective(m1.drop_first(), m2.drop_first());
        assert forall|i: int| 0 <= i < m1.len() implies m1[i] == m2[i] by {
            if i > 0 {
                assert(m1[i] == m1.drop_first()[i - 1]);
                assert(m2[i] == m2.drop_first()[i - 1]);
            }
        }
        assert(m1 =~= m2);
    }
}

/// The encoding pins the atlas down: equal streams mean equal models.
pub proof fn lemma_encoded_injective(v1: AtlasModel, v2: AtlasModel)
    requires
        v1.wf(),
        v2.wf(),
        encoded(v1) == encoded(v2),
    ensures
        v1 == v2,
{
    lemma_name_bytes_len(v1.font_name);
    lemma_name_bytes_len(v2.font_name);
    lemma_entries_bytes_len(v1.map);
    lemma_entries_bytes_len(v2.map);
    let tail1 = name_bytes(v1.font_name) + u32_le(v1.line_height) + u32_le(v1.fontsize) + u32_le(
        v1.margin,
    ) + u32_le(v1.map.len() as u32) + entries_bytes(v1.map);
    let tail2 = name_bytes(v2.font_name) + u32_le(v2.line_height) + u32_le(v2.fontsize) + u32_le(
        v2.margin,
    ) + u32_le(v2.map.len() as u32) + entries_bytes(v2.map);
    assert(encoded(v1) =~= u32_le(v1.font_name.len() as u32) + tail1);
    assert(encoded(v2) =~= u32_le(v2.font_name.len() as u32) + tail2);
    lemma_concat_split(
        u32_le(v1.font_name.len() as u32),
        tail1,
        u32_le(v2.font_name.len() as u32),
        tail2,
    );
    lemma_u32_le_eq(v1.font_name.len() as u32, v2.font_name.len() as u32);
    assert(v1.font_name.len() == v2.font_name.len());
    let rest1 = u32_le(v1.line_height) + u32_le(v1.fontsize) + u32_le(v1.margin) + u32_le(
        v1.map.len() as u32,
    ) + entries_bytes(v1.map);
    let rest2 = u32_le(v2.line_height) + u32_le(v2.fontsize) + u32_le(v2.margin) + u32_le(
        v2.map.len() as u32,
    ) + entries_bytes(v2.map);
    assert(tail1 =~= name_bytes(v1.font_name) + rest1);
    assert(tail2 =~= name_bytes(v2.font_name) + rest2);
    lemma_concat_split(name_bytes(v1.font_name), rest1, name_bytes(v2.font_name), rest2);
    lemma_name_bytes_injective(v1.font_name, v2.font_name);
    assert(rest1 =~= u32_le(v1.line_height) + (u32_le(v1.fontsize) + (u32_le(v1.margin) + (
    u32_le(v1.map.len() as u32) + entries_bytes(v1.map)))));
    assert(rest2 =~= u32_le(v2.line_height) + (u32_le(v2.fontsize) + (u32_le(v2.margin) + (
    u32_le(v2.map.len() as u32) + entries_bytes(v2.map)))));
    lemma_concat_split(
        u32_le(v1.line_height),
        u32_le(v1.fontsize) + (u32_le(v1.margin) + (u32_le(v1.map.len() as u32) + entries_bytes(
            v1.map,
        ))),
        u32_le(v2.line_height),
        u32_le(v2.fontsize) + (u32_le(v2.margin) + (u32_le(v2.map.len() as u32) + entries_bytes(
            v2.map,
        ))),
    );
    lemma_concat_split(
        u32_le(v1.fontsize),
        u32_le(v1.margin) + (u32_le(v1.map.len() as u32) + entries_bytes(v1.map)),
        u32_le(v2.fontsize),
        u32_le(v2.margin) + (u32_le(v2.map.len() as u32) + entries_bytes(v2.map)),
    );
    lemma_concat_split(
        u32_le(v1.margin),
        u32_le(v1.map.len() as u32) + entries_bytes(v1.map),
        u32_le(v2.margin),
        u32_le(v2.map.len() as u32) + entries_bytes(v2.map),
    );
    lemma_concat_split(
        u32_le(v1.map.len() as u32),
        entries_bytes(v1.map),
        u32_le(v2.map.len() as u32),
        entries_bytes(v2.map),
    );
    lemma_u32_le_eq(v1.line_height, v2.line_height);
    lemma_u32_le_eq(v1.fontsize, v2.fontsize);
    lemma_u32_le_eq(v1.margin, v2.margin);
    lemma_u32_le_eq(v1.map.len() as u32, v2.map.len() as u32);
    lemma_entries_bytes_injective(v1.map, v2.map);
    assert(v1 =~= v2);
}

// --- Which byte streams decode --------------------------------------------

/// The streams this codec accepts: a name count, that many scalar-valued
/// character words, the three metric words, an entry count, and exactly that
/// many 32-byte entries whose key words are scalar values — nothing after.
pub open spec fn valid_stream(b: Seq<u8>) -> bool {
    &&& b.len() >= 20
    &&& {
        let n = u32_of_le(b.subrange(0, 4)) as int;
        &&& b.len() >= 20 + 4 * n
        &&& {
            let m = u32_of_le(b.subrange(16 + 4 * n, 20 + 4 * n)) as int;
            &&& b.len() == 20 + 4 * n + 32 * m
            &&& (forall|k: int|
                0 <= k < n ==> is_scalar(u32_of_le(#[trigger] b.subrange(4 + 4 * k, 8 + 4 * k))))
            &&& (forall|k: int|
                0 <= k < m ==> is_scalar(
                    u32_of_le(#[trigger] b.subrange(20 + 4 * n + 32 * k, 24 + 4 * n + 32 * k)),
                ))
        }
    }
}

/// Every well-formed atlas encodes to a stream the decoder accepts.
#[verifier::rlimit(60)]
pub proof fn lemma_encoded_valid(v: AtlasModel)
    requires
        v.wf(),
    ensures
        valid_stream(encoded(v)),
{
    let b = encoded(v);
    let s = v.font_name;
    let mp = v.map;
    let n = s.len() as int;
    let m = mp.len() as int;
    lemma_name_bytes_len(s);
    lemma_entries_bytes_len(mp);
    lemma_u32_le_roundtrip(s.len() as u32);
    lemma_u32_le_roundtrip(mp.len() as u32);
    assert(b.len() == 20 + 4 * n + 32 * m);
    assert(b.subrange(0, 4) =~= u32_le(s.len() as u32));
    assert(b.subrange(16 + 4 * n, 20 + 4 * n) =~= u32_le(mp.len() as u32));
    assert forall|k: int| 0 <= k < n implies is_scalar(
        u32_of_le(#[trigger] b.subrange(4 + 4 * k, 8 + 4 * k)),
    ) by {
        lemma_name_bytes_index(s, k);
        assert(b.subrange(4 + 4 * k, 8 + 4 * k) =~= name_bytes(s).subrange(4 * k, 4 * k + 4));
        lemma_u32_le_roundtrip(s[k] as u32);
        vstd::utf8::char_is_scalar(s[k]);
    }
    assert forall|k: int| 0 <= k < m implies is_scalar(
        u32_of_le(#[trigger] b.subrange(20 + 4 * n + 32 * k, 24 + 4 * n + 32 * k)),
    ) by {
        lemma_entries_bytes_index(mp, k);
        assert(b.subrange(20 + 4 * n + 32 * k, 24 + 4 * n + 32 * k) =~= entries_bytes(
            mp,
        ).subrange(32 * k, 32 * k + 4));
        lemma_u32_le_roundtrip(mp[k].0);
    }
}

/// A stream the decoder rejects is no atlas's encoding.
proof fn lemma_invalid_no_encoding(b: Seq<u8>)
    requires
        !valid_stream(b),
    ensures
        forall|v: AtlasModel| v.wf() ==> #[trigger] encoded(v) != b,
{
    assert forall|v: AtlasModel| v.wf() implies #[trigger] encoded(v) != b by {
        if encoded(v) == b {
            lemma_encoded_valid(v);
        }
    }
}

// --- Executable encoder -----------------------------------------------------

/// Appends the four little-endian bytes of `x`.
fn push_u32(out: &mut Vec<u8>, x: u32)
    ensures
        final(out)@ == old(out)@ + u32_le(x),
{
    out.push(#[verifier::truncate] ((x & 0xFF) as u8));
    out.push(#[verifier::truncate] (((x >> 8) & 0xFF) as u8));
    out.push(#[verifier::truncate] (((x >> 16) & 0xFF) as u8));
    out.push(#[verifier::truncate] (((x >> 24) & 0xFF) as u8));
    proof {
        assert(out@ =~= old(out)@ + u32_le(x));
    }
}

/// Serializes an atlas to its byte stream: deterministic, versionless and
/// dependency-free. The counts are machine limits, not rules of the format.
pub fn encode(a: &FontAtlas) -> (r: Vec<u8>)
    requires
        a@.font_name.len() <= u32::MAX,
        a@.map.len() <= u32::MAX,
    ensures
        r@ == encoded(a@),
{
    let ghost s = a@.font_name;
    let mut out: Vec<u8> = Vec::new();
    let n = a.font_name.as_str().unicode_len();
    push_u32(&mut out, n as u32);
    let mut k: usize = 0;
    while k < n
        invariant
            k <= n,
            n == s.len(),
            s == a@.font_name,
            s.len() <= u32::MAX,
            a@.map.len() <= u32::MAX,
            out@ == u32_le(n as u32) + name_bytes(s.take(k as int)),
        decreases n - k,
    {
        let c = a.font_name.as_str().get_char(k);
        proof {
            lemma_name_bytes_push(s.take(k as int), c);
            assert(s.take(k as int).push(c) =~= s.take(k as int + 1));
        }
        push_u32(&mut out, c as u32);
        proof {
            assert(out@ =~= u32_le(n as u32) + name_bytes(s.take(k as int + 1)));
        }
        k = k + 1;
    }
    proof {
        assert(s.take(n as int) =~= s);
    }
    push_u32(&mut out, a.line_height);
    push_u32(&mut out, a.fontsize);
    push_u32(&mut out, a.margin);
    push_u32(&mut out, a.map.len() as u32);
    let ghost header = u32_le(n as u32) + name_bytes(s) + u32_le(a@.line_height) + u32_le(
        a@.fontsize,
    ) + u32_le(a@.margin) + u32_le(a@.map.len() as u32);
    proof {
        assert(out@ =~= header);
    }
    let mut j: usize = 0;
    while j < a.map.len()
        invariant
            j <= a@.map.len(),
            header == u32_le(n as u32) + name_bytes(s) + u32_le(a@.line_height) + u32_le(
                a@.fontsize,
            ) + u32_le(a@.margin) + u32_le(a@.map.len() as u32),
            out@ == header + entries_bytes(a@.map.take(j as int)),
        decreases a@.map.len() - j,
    {
        let (key, info) = a.map[j];
        push_u32(&mut out, key);
        push_u32(&mut out, info.inner_bounding_box.x);
        push_u32(&mut out, info.inner_bounding_box.y);
        push_u32(&mut out, info.inner_bounding_box.w);
        push_u32(&mut out, info.inner_bounding_box.h);
        push_u32(&mut out, info.pre_draw_advance);
        push_u32(&mut out, info.post_draw_advance);
        push_u32(&mut out, info.height_offset);
        proof {
            lemma_entries_bytes_push(a@.map.take(j as int), (key, info));
            assert(a@.map.take(j as int).push((key, info)) =~= a@.map.take(j as int + 1));
            assert(out@ =~= header + entries_bytes(a@.map.take(j as int + 1)));
        }
        j = j + 1;
    }
    proof {
        assert(a@.map.take(a@.map.len() as int) =~= a@.map);
        assert(out@ =~= encoded(a@));
    }
    out
}

// --- Executable decoder -----------------------------------------------------

/// Why a byte stream was rejected.
#[derive(Clone, Copy, Debug, PartialEq, Eq, Structural)]
pub enum DecodeError {
    /// The stream ended before a counted field did.
    Truncated,
    /// A character word or a map key is not a Unicode scalar value.
    InvalidChar,
    /// Bytes remain after the last counted entry.
    TrailingData,
}

/// Relies on char::from_u32: it returns Some exactly for Unicode scalar
/// values, and the returned character is the given value.
#[verifier::external_body]
fn char_from_u32(x: u32) -> (r: Option<char>)
    ensures
        match r {
            Some(c) => is_scalar(x) && c as u32 == x,
            None => !is_scalar(x),
        },
{
    char::from_u32(x)
}

/// Relies on String::push: it appends the given character.
#[verifier::external_body]
pub(crate) fn push_char(s: &mut String, c: char)
    ensures
        final(s)@ == old(s)@.push(c),
{
    s.push(c);
}

/// Whether a word is a Unicode scalar value.
fn is_scalar_value(x: u32) -> (r: bool)
    ensures
        r == is_scalar(x),
{
    x < 0xD800 || (0xE000 <= x && x <= 0x10FFFF)
}

/// Reads the little-endian word at `i`.
fn read_u32(b: &Vec<u8>, i: usize) -> (x: u32)
    requires
        i + 4 <= b.len(),
    ensures
        x == u32_of_le(b@.subrange(i as int, i as int + 4)),
{
    (b[i] as u32) | ((b[i + 1] as u32) << 8) | ((b[i + 2] as u32) << 16) | ((b[i + 3] as u32)
        << 24)
}

/// Reads one glyph's 28 bytes of metadata at `i`.
fn read_cinfo(b: &Vec<u8>, i: usize) -> (c: CInfo)
    requires
        i + 28 <= b.len(),
    ensures
        cinfo_bytes(c) == b@.subrange(i as int, i as int + 28),
{
    let c = CInfo {
        inner_bounding_box: Rect {
            x: read_u32(b, i),
            y: read_u32(b, i + 4),
            w: read_u32(b, i + 8),
            h: read_u32(b, i + 12),
        },
        pre_draw_advance: read_u32(b, i + 16),
        post_draw_advance: read_u32(b, i + 20),
        height_offset: read_u32(b, i + 24),
    };
    proof {
        let j = i as int;
        lemma_u32_le_reconstruct(b@.subrange(j, j + 4));
        lemma_u32_le_reconstruct(b@.subrange(j + 4, j + 8));
        lemma_u32_le_reconstruct(b@.subrange(j + 8, j + 12));
        lemma_u32_le_reconstruct(b@.subrange(j + 12, j + 16));
        lemma_u32_le_reconstruct(b@.subrange(j + 16, j + 20));
        lemma_u32_le_reconstruct(b@.subrange(j + 20, j + 24));
        lemma_u32_le_reconstruct(b@.subrange(j + 24, j + 28));
        assert(cinfo_bytes(c) =~= b@.subrange(j, j + 28));
    }
    c
}

/// Parses a byte stream back into an atlas.
///
/// Success happens exactly on the streams of [`valid_stream`]; on success the
/// result is well formed and re-encodes to the very input. Together with the
/// last clause this is the round trip: any well-formed atlas's encoding
/// decodes to an atlas with the same contents, whatever order its map's
/// entries were in.
#[verifier::rlimit(100)]
pub fn decode(b: &Vec<u8>) -> (r: Result<FontAtlas, DecodeError>)
    ensures
        r is Ok <==> valid_stream(b@),
        r matches Ok(a) ==> a@.wf() && encoded(a@) == b@,
        forall|v: AtlasModel| v.wf() && #[trigger] encoded(v) == b@ ==> (r matches Ok(a) && a@
            == v),
{
    if b.len() < 4 {
        proof {
            lemma_invalid_no_encoding(b@);
        }
        return Err(DecodeError::Truncated);
    }
    let n32 = read_u32(b, 0);
    let needed: u64 = 20u64 + 4u64 * (n32 as u64);
    if (b.len() as u64) < needed {
        proof {
            lemma_invalid_no_encoding(b@);
        }
        return Err(DecodeError::Truncated);
    }
    let n = n32 as usize;
    let ghost hn: int = 20 + 4 * (n as int);
    let mut font_name = String::new();
    let mut i: usize = 4;
    let mut k: usize = 0;
    while k < n
        invariant
            k <= n,
            i == 4 + 4 * k,
            n == n32 as int,
            b@.len() <= usize::MAX,
            b@.len() >= hn,
            hn == 20 + 4 * (n as int),
            n32 == u32_of_le(b@.subrange(0, 4)),
            font_name@.len() == k,
            name_bytes(font_name@) == b@.subrange(4, i as int),
        decreases n - k,
    {
        let x = read_u32(b, i);
        let c_opt = char_from_u32(x);
        match c_opt {
            Some(c) => {
                proof {
                    lemma_name_bytes_push(font_name@, c);
                    lemma_u32_le_reconstruct(b@.subrange(i as int, i as int + 4));
                    assert(b@.subrange(4, i as int + 4) =~= b@.subrange(4, i as int)
                        + b@.subrange(i as int, i as int + 4));
                }
                push_char(&mut font_name, c);
            },
            None => {
                proof {
                    assert(b@.subrange(4 + 4 * (k as int), 8 + 4 * (k as int)) == b@.subrange(
                        i as int,
                        i as int + 4,
                    ));
                    assert(!is_scalar(
                        u32_of_le(b@.subrange(4 + 4 * (k as int), 8 + 4 * (k as int))),
                    ));
                    assert(!valid_stream(b@));
                    lemma_invalid_no_encoding(b@);
                }
                return Err(DecodeError::InvalidChar);
            },
        }
        i = i + 4;
        k = k + 1;
    }
    let line_height = read_u32(b, i);
    let fontsize = read_u32(b, i + 4);
    let margin = read_u32(b, i + 8);
    let m32 = read_u32(b, i + 12);
    proof {
        assert(i as int + 12 == 16 + 4 * (n as int));
    }
    let total: u64 = needed + 32u64 * (m32 as u64);
    if (b.len() as u64) < total {
        proof {
            lemma_invalid_no_encoding(b@);
        }
        return Err(DecodeError::Truncated);
    }
    if (b.len() as u64) > total {
        proof {
            lemma_invalid_no_encoding(b@);
        }
        return Err(DecodeError::TrailingData);
    }
    let m = m32 as usize;
    i = i + 16;
    let mut map: Vec<(u32, CInfo)> = Vec::new();
    let mut j: usize = 0;
    while j < m
        invariant
            j <= m,
            i == hn + 32 * j,
            m == m32 as int,
            b@.len() <= usize::MAX,
            b@.len() == hn + 32 * (m as int),
            hn == 20 + 4 * (n as int),
            n == n32 as int,
            n32 == u32_of_le(b@.subrange(0, 4)),
            m32 == u32_of_le(b@.subrange(hn - 4, hn)),
            map@.len() == j,
            entries_bytes(map@) == b@.subrange(hn, i as int),
            forall|p: int| 0 <= p < j ==> is_scalar(#[trigger] map@[p].0),
        decreases m - j,
    {
        let key = read_u32(b, i);
        if !is_scalar_value(key) {
            proof {
                assert(b@.subrange(20 + 4 * (n as int) + 32 * (j as int), 24 + 4 * (n as int)
                    + 32 * (j as int)) == b@.subrange(i as int, i as int + 4));
                assert(!valid_stream(b@));
                lemma_invalid_no_encoding(b@);
            }
            return Err(DecodeError::InvalidChar);
        }
        let info = read_cinfo(b, i + 4);
        proof {
            lemma_entries_bytes_push(map@, (key, info));
            lemma_u32_le_reconstruct(b@.subrange(i as int, i as int + 4));
            assert(b@.subrange(hn, i as int + 32) =~= b@.subrange(hn, i as int) + b@.subrange(
                i as int,
                i as int + 4,
            ) + b@.subrange(i as int + 4, i as int + 32));
        }
        map.push((key, info));
        i = i + 32;
        j = j + 1;
    }
    let atlas = FontAtlas { font_name, line_height, fontsize, margin, map };
    proof {
        lemma_u32_le_reconstruct(b@.subrange(0, 4));
        lemma_u32_le_reconstruct(b@.subrange(hn - 16, hn - 12));
        lemma_u32_le_reconstruct(b@.subrange(hn - 12, hn - 8));
        lemma_u32_le_reconstruct(b@.subrange(hn - 8, hn - 4));
        lemma_u32_le_reconstruct(b@.subrange(hn - 4, hn));
        assert(line_height == u32_of_le(b@.subrange(hn - 16, hn - 12)));
        assert(fontsize == u32_of_le(b@.subrange(hn - 12, hn - 8)));
        assert(margin == u32_of_le(b@.subrange(hn - 8, hn - 4)));
        assert(atlas@.font_name.len() as u32 == n32);
        assert(atlas@.map.len() as u32 == m32);
        assert(encoded(atlas@) =~= b@);
        assert(atlas@.wf());
        lemma_encoded_valid(atlas@);
        assert forall|v: AtlasModel| v.wf() && #[trigger] encoded(v) == b@ implies atlas@
            == v by {
            lemma_encoded_injective(atlas@, v);
        }
    }
    Ok(atlas)
}

} // verus!
