use vstd::prelude::*;

verus! {

/// The inclusive codepoint ranges that one Unicode block name stands for.
///
/// This is the hand-curated table: most names expand to their block's single
/// range, a few expand to several sub-ranges that skip unprintable or
/// placeholder glyphs, and a name not in the table expands to nothing.
pub open spec fn block_ranges(name: Seq<char>) -> Seq<(u32, u32)> {
    if name == "Basic Latin"@ {
        seq![(0x0000u32, 0x007Fu32)]
    } else if name == "Specials"@ {
        seq![(0xFFF0u32, 0xFFFDu32)]
    } else if name == "Latin-1 Supplement"@ {
        seq![(0x0080u32, 0x00FFu32)]
    } else if name == "Latin-1 Supplement PW"@ {
        seq![
            (0x0080u32, 0x00A9u32),
            (0x00ABu32, 0x00ABu32),
            (0x00ADu32, 0x00AEu32),
            (0x00B4u32, 0x00B8u32),
            (0x00BBu32, 0x00BBu32),
            (0x00BFu32, 0x00BFu32),
            (0x00C0u32, 0x00FFu32),
        ]
    } else if name == "CJK Symbols and Punctuation"@ {
        seq![(0x3000u32, 0x303Fu32)]
    } else if name == "Katakana"@ {
        seq![(0x30A0u32, 0x30FFu32)]
    } else if name == "Hiragana"@ {
        seq![(0x3040u32, 0x309Fu32)]
    } else if name == "Cyrillic"@ {
        seq![(0x0400u32, 0x04FFu32)]
    } else if name == "Arabic"@ {
        seq![(0x0600u32, 0x06FFu32)]
    } else if name == "CJK Unified Ideographs 1"@ {
        seq![(0x4E00u32, 0x5C00u32)]
    } else if name == "CJK Unified Ideographs 2"@ {
        seq![(0x5C00u32, 0x6800u32)]
    } else if name == "CJK Unified Ideographs 3"@ {
        seq![(0x6800u32, 0x7400u32)]
    } else if name == "CJK Unified Ideographs 4"@ {
        seq![(0x7400u32, 0x8000u32)]
    } else if name == "CJK Unified Ideographs 5"@ {
        seq![(0x8000u32, 0x9000u32)]
    } else if name == "CJK Unified Ideographs 6"@ {
        seq![(0x9000u32, 0x9FFFu32)]
    } else if name == "General Punctuation"@ {
        seq![(0x2010u32, 0x2010u32), (0x2012u32, 0x2027u32), (0x2030u32, 0x205Eu32)]
    } else if name == "Currency Symbols"@ {
        seq![(0x20A0u32, 0x20CFu32)]
    } else if name == "Latin Extented-A"@ {
        seq![(0x0100u32, 0x017Fu32)]
    } else if name == "Spacing Modifier Letters"@ {
        seq![(0x02B0u32, 0x02FFu32)]
    } else if name == "Box Drawing"@ {
        seq![(0x2500u32, 0x257Fu32)]
    } else if name == "Runic"@ {
        seq![(0x16A0u32, 0x16FFu32)]
    } else {
        Seq::empty()
    }
}

/// The ranges selected for a whole list of block names: the concatenation of
/// each name's ranges, in the order the names were given. Unknown names
/// contribute nothing; repeats repeat.
pub open spec fn selected_ranges(names: Seq<Seq<char>>) -> Seq<(u32, u32)>
    decreases names.len(),
{
    if names.len() == 0 {
        Seq::empty()
    } else {
        block_ranges(names[0]) + selected_ranges(names.drop_first())
    }
}

/// Appends the ranges of one block name to `out`.
fn push_block_ranges(name: &String, out: &mut Vec<(u32, u32)>)
    ensures
        final(out)@ == old(out)@ + block_ranges(name@),
{
    if *name == "Basic Latin".to_owned() {
        out.push((0x0000, 0x007F));
    } else if *name == "Specials".to_owned() {
        out.push((0xFFF0, 0xFFFD));
    } else if *name == "Latin-1 Supplement".to_owned() {
        out.push((0x0080, 0x00FF));
    } else if *name == "Latin-1 Supplement PW".to_owned() {
        // Modified range which skips characters that some fonts leave as
        // open boxes: AA, AC, AF-B3, B9-BA, BC-BE.
        out.push((0x0080, 0x00A9));
        out.push((0x00AB, 0x00AB));
        out.push((0x00AD, 0x00AE));
        out.push((0x00B4, 0x00B8));
        out.push((0x00BB, 0x00BB));
        out.push((0x00BF, 0x00BF));
        out.push((0x00C0, 0x00FF));
    } else if *name == "CJK Symbols and Punctuation".to_owned() {
        out.push((0x3000, 0x303F));
    } else if *name == "Katakana".to_owned() {
        out.push((0x30A0, 0x30FF));
    } else if *name == "Hiragana".to_owned() {
        out.push((0x3040, 0x309F));
    } else if *name == "Cyrillic".to_owned() {
        out.push((0x0400, 0x04FF));
    } else if *name == "Arabic".to_owned() {
        out.push((0x0600, 0x06FF));
    } else if *name == "CJK Unified Ideographs 1".to_owned() {
        out.push((0x4E00, 0x5C00));
    } else if *name == "CJK Unified Ideographs 2".to_owned() {
        out.push((0x5C00, 0x6800));
    } else if *name == "CJK Unified Ideographs 3".to_owned() {
        out.push((0x6800, 0x7400));
    } else if *name == "CJK Unified Ideographs 4".to_owned() {
        out.push((0x7400, 0x8000));
    } else if *name == "CJK Unified Ideographs 5".to_owned() {
        out.push((0x8000, 0x9000));
    } else if *name == "CJK Unified Ideographs 6".to_owned() {
        out.push((0x9000, 0x9FFF));
    } else if *name == "General Punctuation".to_owned() {
        // 2000-206F; some sub-ranges are not printable and so are skipped.
        out.push((0x2010, 0x2010));
        out.push((0x2012, 0x2027));
        out.push((0x2030, 0x205E));
    } else if *name == "Currency Symbols".to_owned() {
        out.push((0x20A0, 0x20CF));
    } else if *name == "Latin Extented-A".to_owned() {
        out.push((0x0100, 0x017F));
    } else if *name == "Spacing Modifier Letters".to_owned() {
        out.push((0x02B0, 0x02FF));
    } else if *name == "Box Drawing".to_owned() {
        out.push((0x2500, 0x257F));
    } else if *name == "Runic".to_owned() {
        out.push((0x16A0, 0x16FF));
    }
}

/// Maps human-readable Unicode block names to inclusive codepoint ranges,
/// in the order the names were given. Unrecognized names are silently
/// ignored; repeated names yield repeated ranges.
pub fn select_ranges(names: &Vec<String>) -> (r: Vec<(u32, u32)>)
    ensures
        r@ == selected_ranges(names@.map_values(|s: String| s@)),
{
    let ghost name_views = names@.map_values(|s: String| s@);
    let mut out: Vec<(u32, u32)> = Vec::new();
    let mut idx: usize = 0;
    while idx < names.len()
        invariant
            idx <= names.len(),
            name_views == names@.map_values(|s: String| s@),
            out@ == selected_ranges(name_views.take(idx as int)),
        decreases names.len() - idx,
    {
        push_block_ranges(&names[idx], &mut out);
        proof {
            lemma_selected_ranges_take(name_views, idx as int);
        }
        idx = idx + 1;
    }
    proof {
        assert(name_views.take(names@.len() as int) =~= name_views);
    }
    out
}

/// Taking one more name appends exactly that name's ranges.
proof fn lemma_selected_ranges_take(names: Seq<Seq<char>>, i: int)
    requires
        0 <= i < names.len(),
    ensures
        selected_ranges(names.take(i + 1)) == selected_ranges(names.take(i)) + block_ranges(
            names[i],
        ),
    decreases i,
{
    if i == 0 {
        let s = names.take(1);
        assert(s.len() == 1);
        assert(s[0] == names[0]);
        assert(s.drop_first() =~= Seq::<Seq<char>>::empty());
        assert(selected_ranges(s) == block_ranges(s[0]) + selected_ranges(s.drop_first()));
        assert(selected_ranges(Seq::<Seq<char>>::empty()) == Seq::<(u32, u32)>::empty());
        assert(names.take(0) =~= Seq::<Seq<char>>::empty());
        assert(selected_ranges(s) =~= selected_ranges(names.take(0)) + block_ranges(names[0]));
    } else {
        lemma_selected_ranges_take(names.drop_first(), i - 1);
        assert(names.take(i + 1).drop_first() =~= names.drop_first().take(i));
        assert(names.take(i).drop_first() =~= names.drop_first().take(i - 1));
        assert(selected_ranges(names.take(i + 1)) == block_ranges(names[0]) + selected_ranges(
            names.drop_first().take(i),
        ));
        assert(selected_ranges(names.take(i)) == block_ranges(names[0]) + selected_ranges(
            names.drop_first().take(i - 1),
        ));
        assert(selected_ranges(names.take(i)) + block_ranges(names[i]) =~= block_ranges(
            names[0],
        ) + (selected_ranges(names.drop_first().take(i - 1)) + block_ranges(
            names.drop_first()[i - 1],
        )));
    }
}

} // verus!
