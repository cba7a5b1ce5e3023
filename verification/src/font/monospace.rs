use vstd::prelude::*;

use crate::font::match_key::FontMatchKey;
use crate::font::order::{Ranked, sort_by_rank, sorted_by_rank};

verus! {

/// A monospace fallback candidate. Candidates sort best first, comparing
/// the fields in declaration order, with `None` before any `Some`.
#[derive(Debug, Clone, Copy, PartialEq, Eq, Structural)]
pub struct MonospaceFallbackInfo {
    /// `None` for the default monospace family's face.
    pub font_weight_diff: Option<u16>,
    /// How many of the word's characters the face does not cover, where
    /// that was checked.
    pub codepoint_non_matches: Option<usize>,
    pub font_weight: u16,
    pub id: crate::font::font_id::FontId,
}

pub open spec fn option_u16_rank(o: Option<u16>) -> int {
    match o {
        None => 0,
        Some(v) => v + 1,
    }
}

pub open spec fn option_usize_rank(o: Option<usize>) -> int {
    match o {
        None => 0,
        Some(v) => v + 1,
    }
}

impl Ranked for MonospaceFallbackInfo {
    /// The fields read as the digits of one number, the first field most
    /// significant.
    open spec fn rank(&self) -> int {
        let r1 = option_u16_rank(self.font_weight_diff);
        let r2 = r1 * 0x2_0000_0000_0000_0000 + option_usize_rank(self.codepoint_non_matches);
        let r3 = r2 * 0x1_0000 + self.font_weight;
        r3 * 0x1_0000_0000_0000_0000 + self.id.key
    }

    fn rank_lt(&self, other: &Self) -> (r: bool) {
        let a: u32 = match self.font_weight_diff {
            None => 0u32,
            Some(v) => v as u32 + 1,
        };
        let b: u32 = match other.font_weight_diff {
            None => 0u32,
            Some(v) => v as u32 + 1,
        };
        if a != b {
            return a < b;
        }
        let c: u128 = match self.codepoint_non_matches {
            None => 0u128,
            Some(v) => v as u128 + 1,
        };
        let d: u128 = match other.codepoint_non_matches {
            None => 0u128,
            Some(v) => v as u128 + 1,
        };
        if c != d {
            return c < d;
        }
        if self.font_weight != other.font_weight {
            return self.font_weight < other.font_weight;
        }
        self.id.key < other.id.key
    }
}

/// The default face's entry (no weight difference) ranks before every
/// other candidate, whatever their coverage.
pub proof fn lemma_default_entry_ranks_first(d: MonospaceFallbackInfo, o: MonospaceFallbackInfo)
    requires
        d.font_weight_diff is None,
        o.font_weight_diff is Some,
    ensures
        d.rank() < o.rank(),
{
}

/// Fallback candidates sort field by field: the default face (no weight
/// difference) first, then smaller weight differences; then fewer
/// uncovered characters (a candidate whose coverage was not checked before
/// any checked one); then smaller weights, then smaller IDs.
pub proof fn lemma_fallback_order_is_lexicographic(a: MonospaceFallbackInfo, b: MonospaceFallbackInfo)
    ensures
        (a.font_weight_diff is None && b.font_weight_diff is Some) ==> a.rank() < b.rank(),
        (a.font_weight_diff matches Some(x) && b.font_weight_diff matches Some(y) && x < y)
            ==> a.rank() < b.rank(),
        (a.font_weight_diff == b.font_weight_diff && a.codepoint_non_matches is None
            && b.codepoint_non_matches is Some) ==> a.rank() < b.rank(),
        (a.codepoint_non_matches matches Some(m) && b.codepoint_non_matches matches Some(n) && m
            < n && a.font_weight_diff == b.font_weight_diff) ==> a.rank() < b.rank(),
        (a.font_weight_diff == b.font_weight_diff && a.codepoint_non_matches
            == b.codepoint_non_matches && a.font_weight < b.font_weight) ==> a.rank() < b.rank(),
        (a.font_weight_diff == b.font_weight_diff && a.codepoint_non_matches
            == b.codepoint_non_matches && a.font_weight == b.font_weight && a.id.key < b.id.key)
            ==> a.rank() < b.rank(),
{
}

/// Monospace font match data for a set of attributes.
#[derive(Debug)]
pub struct MonoFontMatches {
    /// Match keys of all monospaced faces in the database, in match order.
    pub keys: Vec<FontMatchKey>,
    /// The default family's key with no weight difference (or a variable
    /// weight match), if any.
    pub default_key: Option<FontMatchKey>,
    /// Monospace fallback candidates, best first.
    pub ranked: Vec<MonospaceFallbackInfo>,
}

/// The candidate entry for a default-family face.
pub open spec fn default_info(dk: FontMatchKey, non_matches: Option<usize>) -> MonospaceFallbackInfo {
    MonospaceFallbackInfo {
        font_weight_diff: None,
        codepoint_non_matches: non_matches,
        font_weight: dk.font_weight,
        id: dk.id,
    }
}

/// The candidate entry for any other face.
pub open spec fn other_info(k: FontMatchKey, non_matches: Option<usize>) -> MonospaceFallbackInfo {
    MonospaceFallbackInfo {
        font_weight_diff: Some(k.font_weight_diff),
        codepoint_non_matches: non_matches,
        font_weight: k.font_weight,
        id: k.id,
    }
}

/// Whether `k` is the face of the default key.
pub open spec fn is_default_face(default_key: Option<FontMatchKey>, k: FontMatchKey) -> bool {
    default_key matches Some(dk) && dk.id.key == k.id.key
}

/// The candidates other than the default face, in the order of `keys`,
/// without coverage data.
pub open spec fn other_candidates(keys: Seq<FontMatchKey>, default_key: Option<FontMatchKey>) -> Seq<
    MonospaceFallbackInfo,
>
    decreases keys.len(),
{
    if keys.len() == 0 {
        Seq::empty()
    } else {
        let rest = other_candidates(keys.drop_last(), default_key);
        if is_default_face(default_key, keys.last()) {
            rest
        } else {
            rest.push(other_info(keys.last(), None))
        }
    }
}

/// The word-independent part of the ranking: the default face first, then
/// the other faces by (weight difference, weight, id).
pub open spec fn ranking_is_word_independent(
    ranked: Seq<MonospaceFallbackInfo>,
    keys: Seq<FontMatchKey>,
    default_key: Option<FontMatchKey>,
) -> bool {
    let head: Seq<MonospaceFallbackInfo> = match default_key {
        Some(dk) => seq![default_info(dk, None)],
        None => Seq::empty(),
    };
    let others = other_candidates(keys, default_key);
    &&& ranked.len() == head.len() + others.len()
    &&& ranked.take(head.len() as int) == head
    &&& sorted_by_rank(ranked.skip(head.len() as int))
    &&& ranked.skip(head.len() as int).to_multiset() == others.to_multiset()
}

/// Ranks the monospace candidates the same way for every word: the default
/// family's face first, then the others by weight difference, weight and
/// id.
pub fn word_independent_ranking(keys: &Vec<FontMatchKey>, default_key: Option<FontMatchKey>) -> (r:
    Vec<MonospaceFallbackInfo>)
    ensures
        ranking_is_word_independent(r@, keys@, default_key),
{
    let mut others: Vec<MonospaceFallbackInfo> = Vec::new();
    let mut i: usize = 0;
    while i < keys.len()
        invariant
            0 <= i <= keys@.len(),
            others@ == other_candidates(keys@.take(i as int), default_key),
        decreases keys@.len() - i,
    {
        let k = keys[i];
        proof {
            assert(keys@.take(i + 1).drop_last() =~= keys@.take(i as int));
        }
        let skip = match default_key {
            Some(dk) => dk.id.key == k.id.key,
            None => false,
        };
        if !skip {
            others.push(
                MonospaceFallbackInfo {
                    font_weight_diff: Some(k.font_weight_diff),
                    codepoint_non_matches: None,
                    font_weight: k.font_weight,
                    id: k.id,
                },
            );
        }
        i = i + 1;
    }
    assert(keys@.take(keys@.len() as int) =~= keys@);
    let sorted = sort_by_rank(&others);
    let mut ranked: Vec<MonospaceFallbackInfo> = Vec::new();
    if let Some(dk) = default_key {
        ranked.push(
            MonospaceFallbackInfo {
                font_weight_diff: None,
                codepoint_non_matches: None,
                font_weight: dk.font_weight,
                id: dk.id,
            },
        );
    }
    let ghost head = ranked@;
    let mut j: usize = 0;
    while j < sorted.len()
        invariant
            0 <= j <= sorted@.len(),
            ranked@ == head + sorted@.take(j as int),
        decreases sorted@.len() - j,
    {
        ranked.push(sorted[j]);
        proof {
            assert(sorted@.take(j + 1) =~= sorted@.take(j as int).push(sorted@[j as int]));
        }
        j = j + 1;
    }
    proof {
        assert(sorted@.take(sorted@.len() as int) =~= sorted@);
        assert(ranked@.take(head.len() as int) =~= head);
        assert(ranked@.skip(head.len() as int) =~= sorted@);
    }
    ranked
}

/// The codepoints of a face's loaded font.
#[derive(Debug)]
pub struct LoadedFont {
    pub id: crate::font::font_id::FontId,
    pub unicode_codepoints: Vec<u32>,
}

/// The codepoints of the first font in `fonts` for the face with key `k`,
/// or `None` if no font for that face loaded.
pub open spec fn lookup_codepoints(fonts: Seq<LoadedFont>, k: u64) -> Option<Seq<u32>>
    decreases fonts.len(),
{
    if fonts.len() == 0 {
        None
    } else if fonts[0].id.key == k {
        Some(fonts[0].unicode_codepoints@)
    } else {
        lookup_codepoints(fonts.drop_first(), k)
    }
}

/// The loaded font for the face with key `k`, if any.
pub fn find_font(fonts: &[LoadedFont], k: u64) -> (r: Option<&[u32]>)
    ensures
        match r {
            Some(cps) => lookup_codepoints(fonts@, k) == Some(cps@),
            None => lookup_codepoints(fonts@, k) is None,
        },
{
    let mut i: usize = 0;
    assert(fonts@.skip(0) =~= fonts@);
    while i < fonts.len()
        invariant
            0 <= i <= fonts@.len(),
            lookup_codepoints(fonts@, k) == lookup_codepoints(fonts@.skip(i as int), k),
        decreases fonts@.len() - i,
    {
        assert(fonts@.skip(i as int).drop_first() =~= fonts@.skip(i + 1));
        if fonts[i].id.key == k {
            return Some(fonts[i].unicode_codepoints.as_slice());
        }
        i = i + 1;
    }
    assert(fonts@.skip(i as int) =~= Seq::<LoadedFont>::empty());
    None
}

/// How many characters of `word` the codepoint list `cps` holds.
pub open spec fn supported_count(word: Seq<char>, cps: Seq<u32>) -> nat
    decreases word.len(),
{
    if word.len() == 0 {
        0
    } else {
        supported_count(word.drop_last(), cps) + if cps.contains(word.last() as u32) {
            1nat
        } else {
            0nat
        }
    }
}

pub proof fn lemma_supported_count_bound(word: Seq<char>, cps: Seq<u32>)
    ensures
        supported_count(word, cps) <= word.len(),
    decreases word.len(),
{
    if word.len() > 0 {
        lemma_supported_count_bound(word.drop_last(), cps);
    }
}

/// Counting supported characters adds up over concatenated words, and the
/// empty word has none.
pub proof fn lemma_supported_count_additive(w1: Seq<char>, w2: Seq<char>, cps: Seq<u32>)
    ensures
        supported_count(w1 + w2, cps) == supported_count(w1, cps) + supported_count(w2, cps),
        supported_count(Seq::<char>::empty(), cps) == 0,
    decreases w2.len(),
{
    if w2.len() == 0 {
        assert(w1 + w2 =~= w1);
    } else {
        lemma_supported_count_additive(w1, w2.drop_last(), cps);
        assert((w1 + w2).drop_last() =~= w1 + w2.drop_last());
        assert((w1 + w2).last() == w2.last());
    }
}

/// How many characters of `word` the codepoint list `cps` lacks.
pub open spec fn non_matches(word: Seq<char>, cps: Seq<u32>) -> usize {
    (word.len() - supported_count(word, cps)) as usize
}

/// Whether the non-default candidate `k` is left out of a word's ranking:
/// it is the default face, or script data exists and does not list it.
pub open spec fn skipped_for_word(
    k: FontMatchKey,
    default_key: Option<FontMatchKey>,
    script_ids: Seq<crate::font::font_id::FontId>,
) -> bool {
    is_default_face(default_key, k) || (script_ids.len() > 0 && !crate::font::ids::has_key(
        script_ids,
        k.id.key,
    ))
}

/// The non-default candidates of a word's ranking, in the order of `keys`:
/// each face that is not skipped and whose font loaded, with the number
/// of the word's characters its font lacks.
pub open spec fn word_candidates(
    keys: Seq<FontMatchKey>,
    default_key: Option<FontMatchKey>,
    script_ids: Seq<crate::font::font_id::FontId>,
    fonts: Seq<LoadedFont>,
    word: Seq<char>,
) -> Seq<MonospaceFallbackInfo>
    decreases keys.len(),
{
    if keys.len() == 0 {
        Seq::empty()
    } else {
        let rest = word_candidates(keys.drop_last(), default_key, script_ids, fonts, word);
        let k = keys.last();
        if skipped_for_word(k, default_key, script_ids) {
            rest
        } else {
            match lookup_codepoints(fonts, k.id.key) {
                Some(cps) => rest.push(other_info(k, Some(non_matches(word, cps)))),
                None => rest,
            }
        }
    }
}

/// The entry of the default face in a word's ranking, if it has one.
pub open spec fn word_default_entry(
    default_key: Option<FontMatchKey>,
    fonts: Seq<LoadedFont>,
    word: Seq<char>,
) -> Seq<MonospaceFallbackInfo> {
    match default_key {
        Some(dk) => match lookup_codepoints(fonts, dk.id.key) {
            Some(cps) => seq![default_info(dk, Some(non_matches(word, cps)))],
            None => Seq::empty(),
        },
        None => Seq::empty(),
    }
}

/// Whether the default face's font covers every character of the word.
pub open spec fn default_covers_word(
    default_key: Option<FontMatchKey>,
    fonts: Seq<LoadedFont>,
    word: Seq<char>,
) -> bool {
    default_key matches Some(dk) && lookup_codepoints(fonts, dk.id.key) matches Some(cps)
        && supported_count(word, cps) == word.len()
}

/// `r` is the ranking of `word`: the default face alone when its font
/// covers the whole word; otherwise the default face's entry and the other
/// candidates, sorted best first.
pub open spec fn is_word_ranking(
    r: Seq<MonospaceFallbackInfo>,
    keys: Seq<FontMatchKey>,
    default_key: Option<FontMatchKey>,
    script_ids: Seq<crate::font::font_id::FontId>,
    fonts: Seq<LoadedFont>,
    word: Seq<char>,
) -> bool {
    if default_covers_word(default_key, fonts, word) {
        r == word_default_entry(default_key, fonts, word)
    } else {
        &&& sorted_by_rank(r)
        &&& r.to_multiset() == (word_default_entry(default_key, fonts, word) + word_candidates(
            keys,
            default_key,
            script_ids,
            fonts,
            word,
        )).to_multiset()
    }
}

} // verus!
