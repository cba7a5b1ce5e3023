use vstd::prelude::*;

use crate::font::attrs::{FontMatchAttrs, FontStyle};
use crate::font::db::{contains_run, str_contains};
use crate::font::font_id::FontId;
use crate::font::order::Ranked;

verus! {

/// What font matching reads of a face of the database.
#[derive(Debug)]
pub struct FaceSummary {
    pub id: FontId,
    pub post_script_name: String,
    pub style: FontStyle,
    pub weight: u16,
    /// The stretch's number, from 1 (ultra-condensed) to 9 (ultra-expanded).
    pub stretch: u16,
    pub monospaced: bool,
}

/// How far apart two styles are: 0 for the same style, 1 between italic and
/// oblique, 2 between upright and slanted.
pub open spec fn spec_style_diff(a: FontStyle, b: FontStyle) -> u8 {
    if a == b {
        0
    } else if a != FontStyle::Normal && b != FontStyle::Normal {
        1
    } else {
        2
    }
}

pub open spec fn spec_abs_diff(a: u16, b: u16) -> u16 {
    if a >= b {
        (a - b) as u16
    } else {
        (b - a) as u16
    }
}

/// The distance between two numbers.
pub fn abs_diff(a: u16, b: u16) -> (r: u16)
    ensures
        r == spec_abs_diff(a, b),
{
    if a >= b {
        a - b
    } else {
        b - a
    }
}

/// How far apart two styles are.
pub fn style_diff(a: FontStyle, b: FontStyle) -> (r: u8)
    ensures
        r == spec_style_diff(a, b),
{
    match (a, b) {
        (FontStyle::Normal, FontStyle::Normal)
        | (FontStyle::Italic, FontStyle::Italic)
        | (FontStyle::Oblique, FontStyle::Oblique) => 0,
        (FontStyle::Italic, FontStyle::Oblique) | (FontStyle::Oblique, FontStyle::Italic) => 1,
        _ => 2,
    }
}

/// How well a face matches the requested attributes. Keys sort with the
/// best candidates first, comparing the fields in declaration order.
#[derive(Debug, Clone, Copy, PartialEq, Eq, Structural)]
pub struct FontMatchKey {
    pub not_emoji: bool,
    pub font_weight_diff: u16,
    pub font_stretch_diff: u16,
    pub font_style_diff: u8,
    pub font_weight: u16,
    pub font_stretch: u16,
    pub id: FontId,
    pub variable_weight_match: bool,
}

pub open spec fn bool_rank(b: bool) -> int {
    if b {
        1
    } else {
        0
    }
}

impl FontMatchKey {
    /// The key a face with the given ID, PostScript name, style, weight and
    /// stretch number gets for the given attributes. `weight_axis_covers`
    /// says whether the face's variable weight axis spans the requested
    /// weight; it counts only where the face's own weight differs.
    pub open spec fn key_from(
        attrs: FontMatchAttrs,
        id: FontId,
        post_script_name: Seq<char>,
        style: FontStyle,
        weight: u16,
        stretch: u16,
        weight_axis_covers: bool,
    ) -> FontMatchKey {
        let font_weight_diff = spec_abs_diff(attrs.weight, weight);
        FontMatchKey {
            not_emoji: !contains_run(post_script_name, "Emoji"@),
            font_weight_diff,
            font_stretch_diff: spec_abs_diff(attrs.stretch.spec_number(), stretch),
            font_style_diff: spec_style_diff(attrs.style, style),
            font_weight: weight,
            font_stretch: stretch,
            id,
            variable_weight_match: font_weight_diff != 0 && weight_axis_covers,
        }
    }

    /// The key a face gets for the given attributes.
    pub open spec fn spec_new(attrs: FontMatchAttrs, face: FaceSummary, weight_axis_covers: bool) -> FontMatchKey {
        Self::key_from(
            attrs,
            face.id,
            face.post_script_name@,
            face.style,
            face.weight,
            face.stretch,
            weight_axis_covers,
        )
    }

    /// The key a face gets for the given attributes.
    pub fn new(attrs: &FontMatchAttrs, face: &FaceSummary, weight_axis_covers: bool) -> (r: Self)
        ensures
            r == Self::spec_new(*attrs, *face, weight_axis_covers),
    {
        let not_emoji = !str_contains(face.post_script_name.as_str(), "Emoji");
        let font_weight_diff: u16 = abs_diff(attrs.weight, face.weight);
        let variable_weight_match = font_weight_diff != 0 && weight_axis_covers;
        let font_stretch_diff: u16 = abs_diff(attrs.stretch.to_number(), face.stretch);
        let font_style_diff: u8 = style_diff(attrs.style, face.style);
        FontMatchKey {
            not_emoji,
            font_weight_diff,
            font_stretch_diff,
            font_style_diff,
            font_weight: face.weight,
            font_stretch: face.stretch,
            id: face.id,
            variable_weight_match,
        }
    }
}

impl Ranked for FontMatchKey {
    /// The fields read as the digits of one number, the first field most
    /// significant.
    open spec fn rank(&self) -> int {
        let r1 = bool_rank(self.not_emoji);
        let r2 = r1 * 0x1_0000 + self.font_weight_diff;
        let r3 = r2 * 0x1_0000 + self.font_stretch_diff;
        let r4 = r3 * 0x100 + self.font_style_diff;
        let r5 = r4 * 0x1_0000 + self.font_weight;
        let r6 = r5 * 0x1_0000 + self.font_stretch;
        let r7 = r6 * 0x1_0000_0000_0000_0000 + self.id.key;
        r7 * 2 + bool_rank(self.variable_weight_match)
    }

    fn rank_lt(&self, other: &Self) -> (r: bool) {
        if self.not_emoji != other.not_emoji {
            !self.not_emoji
        } else if self.font_weight_diff != other.font_weight_diff {
            self.font_weight_diff < other.font_weight_diff
        } else if self.font_stretch_diff != other.font_stretch_diff {
            self.font_stretch_diff < other.font_stretch_diff
        } else if self.font_style_diff != other.font_style_diff {
            self.font_style_diff < other.font_style_diff
        } else if self.font_weight != other.font_weight {
            self.font_weight < other.font_weight
        } else if self.font_stretch != other.font_stretch {
            self.font_stretch < other.font_stretch
        } else if self.id.key != other.id.key {
            self.id.key < other.id.key
        } else {
            !self.variable_weight_match && other.variable_weight_match
        }
    }
}

/// Match keys sort emoji faces apart from the others, and within each
/// group the face with the smaller weight difference first, then the
/// smaller stretch difference.
pub proof fn lemma_match_order_prefers_closer_weight(a: FontMatchKey, b: FontMatchKey)
    ensures
        (!a.not_emoji && b.not_emoji) ==> a.rank() < b.rank(),
        (a.not_emoji == b.not_emoji && a.font_weight_diff < b.font_weight_diff) ==> a.rank()
            < b.rank(),
        (a.not_emoji == b.not_emoji && a.font_weight_diff == b.font_weight_diff
            && a.font_stretch_diff < b.font_stretch_diff) ==> a.rank() < b.rank(),
{
}

/// Match keys sort field by field in declaration order: a key sorts first
/// when, at the first field where the two keys differ, its value is the
/// smaller (`false` before `true`). So non-emoji faces come after emoji
/// ones, then smaller weight, stretch and style differences come first,
/// then smaller weights, stretches and IDs, and a variable weight match
/// last.
pub proof fn lemma_match_order_is_lexicographic(a: FontMatchKey, b: FontMatchKey)
    ensures
        (!a.not_emoji && b.not_emoji) ==> a.rank() < b.rank(),
        (a.not_emoji == b.not_emoji && a.font_weight_diff < b.font_weight_diff) ==> a.rank()
            < b.rank(),
        (a.not_emoji == b.not_emoji && a.font_weight_diff == b.font_weight_diff
            && a.font_stretch_diff < b.font_stretch_diff) ==> a.rank() < b.rank(),
        (a.not_emoji == b.not_emoji && a.font_weight_diff == b.font_weight_diff
            && a.font_stretch_diff == b.font_stretch_diff && a.font_style_diff
            < b.font_style_diff) ==> a.rank() < b.rank(),
        (a.not_emoji == b.not_emoji && a.font_weight_diff == b.font_weight_diff
            && a.font_stretch_diff == b.font_stretch_diff && a.font_style_diff
            == b.font_style_diff && a.font_weight < b.font_weight) ==> a.rank() < b.rank(),
        (a.not_emoji == b.not_emoji && a.font_weight_diff == b.font_weight_diff
            && a.font_stretch_diff == b.font_stretch_diff && a.font_style_diff
            == b.font_style_diff && a.font_weight == b.font_weight && a.font_stretch
            < b.font_stretch) ==> a.rank() < b.rank(),
        (a.not_emoji == b.not_emoji && a.font_weight_diff == b.font_weight_diff
            && a.font_stretch_diff == b.font_stretch_diff && a.font_style_diff
            == b.font_style_diff && a.font_weight == b.font_weight && a.font_stretch
            == b.font_stretch && a.id.key < b.id.key) ==> a.rank() < b.rank(),
        (a.not_emoji == b.not_emoji && a.font_weight_diff == b.font_weight_diff
            && a.font_stretch_diff == b.font_stretch_diff && a.font_style_diff
            == b.font_style_diff && a.font_weight == b.font_weight && a.font_stretch
            == b.font_stretch && a.id.key == b.id.key && !a.variable_weight_match
            && b.variable_weight_match) ==> a.rank() < b.rank(),
{
}

/// The position of the first key in `s` for the face with key `k`.
pub open spec fn first_with_id(s: Seq<FontMatchKey>, k: u64, i: int) -> bool {
    &&& 0 <= i < s.len()
    &&& s[i].id.key == k
    &&& forall|j: int| 0 <= j < i ==> s[j].id.key != k
}

/// Moves the first key for the face with key `k` to the front. Returns
/// whether there was one; if not, the keys stay as they are.
pub fn promote_key(keys: &mut Vec<FontMatchKey>, k: u64) -> (found: bool)
    ensures
        found == exists|i: int| 0 <= i < old(keys)@.len() && #[trigger] old(keys)@[i].id.key == k,
        found ==> exists|i: int|
            first_with_id(old(keys)@, k, i) && final(keys)@ == seq![old(keys)@[i]] + old(
                keys,
            )@.remove(i),
        !found ==> final(keys)@ == old(keys)@,
{
    let mut i: usize = 0;
    while i < keys.len()
        invariant
            0 <= i <= keys@.len(),
            keys@ == old(keys)@,
            forall|j: int| 0 <= j < i ==> keys@[j].id.key != k,
        decreases keys@.len() - i,
    {
        if keys[i].id.key == k {
            let m = keys.remove(i);
            keys.insert(0, m);
            assert(keys@ =~= seq![old(keys)@[i as int]] + old(keys)@.remove(i as int));
            assert(first_with_id(old(keys)@, k, i as int));
            return true;
        }
        i = i + 1;
    }
    false
}

} // verus!
