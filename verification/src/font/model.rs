use vstd::prelude::*;

use crate::font::attrs::{FontMatchAttrs, attrs_view, family_view};
use crate::font::db::{
    FaceRecord, FaceView, contains_run, is_u64_text, database_best_face, lists_family, record_view,
    resolve_family, str_contains,
};
use crate::font::font_id::{FontId, decimal_text, lemma_text_keys_differ, text_key};
use crate::font::ids::has_key;
use crate::font::match_key::{FaceSummary, FontMatchKey, bool_rank, spec_abs_diff};
use crate::font::order::Ranked;
use crate::font::monospace::{
    MonoFontMatches, MonospaceFallbackInfo, option_u16_rank, option_usize_rank,
    ranking_is_word_independent,
};
use crate::font::order::sorted_by_rank;

verus! {

/// The ordering key of a face of the database (0 if its ID text were not a
/// number, which fontdb never writes).
pub open spec fn view_key(v: FaceView) -> u64 {
    match text_key(v.0) {
        Some(k) => k,
        None => 0,
    }
}

/// Whether the faces' ID texts are decimal texts of pairwise different
/// `u64`s, as those of a database are.
pub open spec fn ids_well_written(faces: Seq<FaceView>) -> bool {
    &&& forall|i: int| 0 <= i < faces.len() ==> is_u64_text(#[trigger] faces[i].0)
    &&& forall|i: int, j: int|
        0 <= i < j < faces.len() ==> #[trigger] faces[i].0 != #[trigger] faces[j].0
}

/// Faces with well-written IDs have pairwise different keys.
pub proof fn lemma_view_keys_differ(faces: Seq<FaceView>, i: int, j: int)
    requires
        ids_well_written(faces),
        0 <= i < faces.len(),
        0 <= j < faces.len(),
        i != j,
    ensures
        view_key(faces[i]) != view_key(faces[j]),
        text_key(faces[i].0) is Some,
{
    let a = choose|v: u64| #[trigger] decimal_text(v as nat) == faces[i].0;
    let b = choose|v: u64| #[trigger] decimal_text(v as nat) == faces[j].0;
    if i < j {
        assert(faces[i].0 != faces[j].0);
    } else {
        assert(faces[j].0 != faces[i].0);
    }
    assert(a != b);
    lemma_text_keys_differ(a, b);
}

/// A face with a well-written ID has a key.
pub proof fn lemma_view_key_parses(faces: Seq<FaceView>, i: int)
    requires
        ids_well_written(faces),
        0 <= i < faces.len(),
    ensures
        text_key(faces[i].0) == Some(view_key(faces[i])),
{
    let a = choose|v: u64| #[trigger] decimal_text(v as nat) == faces[i].0;
    crate::font::font_id::lemma_decimal_text_parses(a);
}

/// The match key of the face `v` for `attrs`, with `c` the weight-axis
/// answer for it.
pub open spec fn view_match_key(attrs: FontMatchAttrs, v: FaceView, c: bool) -> FontMatchKey {
    FontMatchKey::key_from(attrs, FontId { key: view_key(v) }, v.1, v.3, v.4, v.5, c)
}

/// The match keys of `faces` for `attrs`, in storage order, with the
/// weight-axis answers `covers`.
pub open spec fn face_keys(attrs: FontMatchAttrs, faces: Seq<FaceView>, covers: Seq<bool>) -> Seq<
    FontMatchKey,
> {
    Seq::new(faces.len(), |i: int| view_match_key(attrs, faces[i], covers[i]))
}

/// `covers` holds one weight-axis answer per face, `false` for each face
/// whose weight is the requested one.
pub open spec fn axis_answers_fit(attrs: FontMatchAttrs, faces: Seq<FaceView>, covers: Seq<bool>) -> bool {
    &&& covers.len() == faces.len()
    &&& forall|i: int|
        0 <= i < faces.len() && spec_abs_diff(attrs.weight, #[trigger] faces[i].4) == 0
            ==> !covers[i]
}

/// `covers` fits, and where a face's weight differs from the requested one
/// its answer is one that `weight_axis_covers` gives for the face.
pub open spec fn axis_answers_from<F: Fn(FontId, u16) -> bool>(
    attrs: FontMatchAttrs,
    faces: Seq<FaceView>,
    covers: Seq<bool>,
    weight_axis_covers: F,
) -> bool {
    &&& axis_answers_fit(attrs, faces, covers)
    &&& forall|i: int|
        0 <= i < faces.len() && spec_abs_diff(attrs.weight, #[trigger] faces[i].4) != 0
            ==> weight_axis_covers.ensures((FontId { key: view_key(faces[i]) }, attrs.weight), covers[i])
}

/// `r` is the font match list for `attrs` over `faces`, with the generic
/// family names `generics` and the weight-axis answers `covers`: one key per
/// face, sorted best first, except that the face the database's query picks
/// (if any) comes first.
pub open spec fn is_match_list(
    r: Seq<FontMatchKey>,
    attrs: FontMatchAttrs,
    faces: Seq<FaceView>,
    generics: (Seq<char>, Seq<char>, Seq<char>, Seq<char>, Seq<char>),
    covers: Seq<bool>,
) -> bool {
    let keys = face_keys(attrs, faces, covers);
    let name = resolve_family(family_view(&attrs.family), generics);
    match database_best_face(faces, name, attrs.weight, attrs.stretch.spec_number(), attrs.style) {
        Some(q) => {
            &&& r.len() > 0
            &&& r[0] == keys[q]
            &&& sorted_by_rank(r.drop_first())
            &&& r.drop_first().to_multiset() == keys.to_multiset().remove(keys[q])
        },
        None => {
            &&& sorted_by_rank(r)
            &&& r.to_multiset() == keys.to_multiset()
        },
    }
}

/// `r` is a font match list for `attrs` over `faces`, for some weight-axis
/// answers.
pub open spec fn is_some_match_list(
    r: Seq<FontMatchKey>,
    attrs: FontMatchAttrs,
    faces: Seq<FaceView>,
    generics: (Seq<char>, Seq<char>, Seq<char>, Seq<char>, Seq<char>),
) -> bool {
    exists|covers: Seq<bool>| #[trigger]
        axis_answers_fit(attrs, faces, covers) && is_match_list(r, attrs, faces, generics, covers)
}

/// A match list for some attributes is one for any attributes equal to
/// them.
pub proof fn lemma_match_list_same_attrs(
    r: Seq<FontMatchKey>,
    a: &FontMatchAttrs,
    b: &FontMatchAttrs,
    faces: Seq<FaceView>,
    generics: (Seq<char>, Seq<char>, Seq<char>, Seq<char>, Seq<char>),
)
    requires
        is_some_match_list(r, *a, faces, generics),
        attrs_view(a) == attrs_view(b),
    ensures
        is_some_match_list(r, *b, faces, generics),
{
    let covers = choose|covers: Seq<bool>| #[trigger]
        axis_answers_fit(*a, faces, covers) && is_match_list(r, *a, faces, generics, covers);
    assert(face_keys(*a, faces, covers) =~= face_keys(*b, faces, covers));
    assert(axis_answers_fit(*b, faces, covers));
}

/// Keys of different faces rank differently.
pub proof fn lemma_rank_tells_faces_apart(a: FontMatchKey, b: FontMatchKey)
    requires
        a.rank() == b.rank(),
    ensures
        a.id.key == b.id.key,
{
    let ra = a.rank();
    let r6a = (((((bool_rank(a.not_emoji) * 0x1_0000 + a.font_weight_diff) * 0x1_0000
        + a.font_stretch_diff) * 0x100 + a.font_style_diff) * 0x1_0000 + a.font_weight) * 0x1_0000
        + a.font_stretch);
    let r6b = (((((bool_rank(b.not_emoji) * 0x1_0000 + b.font_weight_diff) * 0x1_0000
        + b.font_stretch_diff) * 0x100 + b.font_style_diff) * 0x1_0000 + b.font_weight) * 0x1_0000
        + b.font_stretch);
    let r7a = r6a * 0x1_0000_0000_0000_0000 + a.id.key;
    let r7b = r6b * 0x1_0000_0000_0000_0000 + b.id.key;
    assert(a.rank() == r7a * 2 + bool_rank(a.variable_weight_match));
    assert(b.rank() == r7b * 2 + bool_rank(b.variable_weight_match));
    assert(r7a == r7b);
    let ka = a.id.key as int;
    let kb = b.id.key as int;
    assert(0 <= ka < 0x1_0000_0000_0000_0000 && 0 <= kb < 0x1_0000_0000_0000_0000);
    assert(ka == kb) by (nonlinear_arith)
        requires
            r6a * 0x1_0000_0000_0000_0000 + ka == r6b * 0x1_0000_0000_0000_0000 + kb,
            0 <= ka < 0x1_0000_0000_0000_0000,
            0 <= kb < 0x1_0000_0000_0000_0000,
    ;
}

/// Two sorted sequences with the same elements are equal, where elements of
/// equal rank are equal.
pub proof fn lemma_sorted_permutation_unique<T: Ranked>(s1: Seq<T>, s2: Seq<T>)
    requires
        sorted_by_rank(s1),
        sorted_by_rank(s2),
        s1.to_multiset() == s2.to_multiset(),
        forall|i: int, j: int|
            0 <= i < s1.len() && 0 <= j < s1.len() && (#[trigger] s1[i]).rank() == (#[trigger] s1[j]).rank()
                ==> s1[i] == s1[j],
    ensures
        s1 == s2,
    decreases s1.len(),
{
    broadcast use vstd::seq_lib::group_to_multiset_ensures;

    vstd::seq_lib::to_multiset_len(s1);
    vstd::seq_lib::to_multiset_len(s2);
    if s1.len() == 0 {
        assert(s2.len() == 0);
        assert(s1 =~= s2);
    } else {
        assert(s2.len() == s1.len());
        assert(s1.to_multiset().count(s1[0]) > 0);
        assert(s2.contains(s1[0]));
        let j = choose|j: int| 0 <= j < s2.len() && s2[j] == s1[0];
        assert(s2.to_multiset().count(s2[0]) > 0);
        assert(s1.contains(s2[0]));
        let i = choose|i: int| 0 <= i < s1.len() && s1[i] == s2[0];
        assert(s1[0].rank() <= s1[i].rank());
        assert(s2[0].rank() <= s2[j].rank());
        assert(s1[i] == s1[0]);
        assert(s1.remove(0) =~= s1.drop_first());
        assert(s2.remove(0) =~= s2.drop_first());
        vstd::seq_lib::to_multiset_remove(s1, 0);
        vstd::seq_lib::to_multiset_remove(s2, 0);
        let t1 = s1.drop_first();
        let t2 = s2.drop_first();
        assert forall|a: int, b: int|
            0 <= a < t1.len() && 0 <= b < t1.len() && (#[trigger] t1[a]).rank() == (#[trigger] t1[b]).rank()
                implies t1[a] == t1[b] by {
            assert(t1[a] == s1[a + 1] && t1[b] == s1[b + 1]);
        }
        lemma_sorted_permutation_unique(t1, t2);
        assert(s1 =~= s2) by {
            assert forall|k: int| 0 <= k < s1.len() implies s1[k] == s2[k] by {
                if k > 0 {
                    assert(s1[k] == t1[k - 1] && s2[k] == t2[k - 1]);
                }
            }
        }
    }
}

/// Elements of `s` drawn from the match keys of faces with pairwise
/// different keys are equal when they rank the same.
proof fn lemma_drawn_keys_rank_apart(
    s: Seq<FontMatchKey>,
    attrs: FontMatchAttrs,
    faces: Seq<FaceView>,
    covers: Seq<bool>,
)
    requires
        ids_well_written(faces),
        forall|e: FontMatchKey| #[trigger] s.contains(e) ==> face_keys(attrs, faces, covers).contains(e),
    ensures
        forall|i: int, j: int|
            0 <= i < s.len() && 0 <= j < s.len() && (#[trigger] s[i]).rank() == (#[trigger] s[j]).rank()
                ==> s[i] == s[j],
{
    let keys = face_keys(attrs, faces, covers);
    assert forall|i: int, j: int|
        0 <= i < s.len() && 0 <= j < s.len() && (#[trigger] s[i]).rank() == (#[trigger] s[j]).rank()
            implies s[i] == s[j] by {
        assert(s.contains(s[i]) && s.contains(s[j]));
        let x = choose|x: int| 0 <= x < keys.len() && keys[x] == s[i];
        let y = choose|y: int| 0 <= y < keys.len() && keys[y] == s[j];
        lemma_rank_tells_faces_apart(s[i], s[j]);
        if x != y {
            lemma_view_keys_differ(faces, x, y);
        }
    }
}

/// Font matching is repeatable: two match lists for the same attributes
/// over the same faces and generic family names are the same list, when
/// their weight-axis answers come from a test that answers each question
/// one way.
pub proof fn lemma_font_matches_determined<F: Fn(FontId, u16) -> bool>(
    r1: Seq<FontMatchKey>,
    r2: Seq<FontMatchKey>,
    attrs: FontMatchAttrs,
    faces: Seq<FaceView>,
    generics: (Seq<char>, Seq<char>, Seq<char>, Seq<char>, Seq<char>),
    covers1: Seq<bool>,
    covers2: Seq<bool>,
    weight_axis_covers: F,
)
    requires
        ids_well_written(faces),
        forall|id: FontId, w: u16, a: bool, b: bool|
            weight_axis_covers.ensures((id, w), a) && weight_axis_covers.ensures((id, w), b) ==> a
                == b,
        axis_answers_from(attrs, faces, covers1, weight_axis_covers),
        axis_answers_from(attrs, faces, covers2, weight_axis_covers),
        is_match_list(r1, attrs, faces, generics, covers1),
        is_match_list(r2, attrs, faces, generics, covers2),
    ensures
        r1 == r2,
{
    broadcast use vstd::seq_lib::group_to_multiset_ensures;
    broadcast use vstd::multiset::group_multiset_axioms;

    assert(covers1 =~= covers2) by {
        assert forall|i: int| 0 <= i < faces.len() implies covers1[i] == covers2[i] by {
            if spec_abs_diff(attrs.weight, faces[i].4) == 0 {
            } else {
            }
        }
    }
    let keys = face_keys(attrs, faces, covers1);
    let name = resolve_family(family_view(&attrs.family), generics);
    match database_best_face(faces, name, attrs.weight, attrs.stretch.spec_number(), attrs.style) {
        Some(q) => {
            let t1 = r1.drop_first();
            let t2 = r2.drop_first();
            assert forall|e: FontMatchKey| #[trigger] t1.contains(e) implies keys.contains(e) by {
                assert(t1.to_multiset().count(e) > 0);
                assert(keys.to_multiset().count(e) > 0);
            }
            lemma_drawn_keys_rank_apart(t1, attrs, faces, covers1);
            lemma_sorted_permutation_unique(t1, t2);
            assert(r1 =~= r2) by {
                assert forall|k: int| 0 <= k < r1.len() implies r1[k] == r2[k] by {
                    if k > 0 {
                        assert(r1[k] == t1[k - 1] && r2[k] == t2[k - 1]);
                    }
                }
            }
        },
        None => {
            assert forall|e: FontMatchKey| #[trigger] r1.contains(e) implies keys.contains(e) by {
                assert(r1.to_multiset().count(e) > 0);
            }
            lemma_drawn_keys_rank_apart(r1, attrs, faces, covers1);
            lemma_sorted_permutation_unique(r1, r2);
        },
    }
}

/// Whether a face counts as monospace: marked monospaced, and no "Emoji"
/// in its PostScript name.
pub open spec fn is_monospace_view(v: FaceView) -> bool {
    v.6 && !contains_run(v.1, "Emoji"@)
}

/// Some monospace face of `faces` has the key `k`.
pub open spec fn lists_monospace(faces: Seq<FaceView>, k: u64) -> bool {
    exists|i: int| 0 <= i < faces.len() && is_monospace_view(faces[i]) && #[trigger] view_key(faces[i]) == k
}

/// The IDs of the monospace faces of `faces`, in storage order.
pub open spec fn monospace_view_ids(faces: Seq<FaceView>) -> Seq<FontId>
    decreases faces.len(),
{
    if faces.len() == 0 {
        Seq::empty()
    } else {
        let rest = monospace_view_ids(faces.drop_last());
        if is_monospace_view(faces.last()) {
            rest.push(FontId { key: view_key(faces.last()) })
        } else {
            rest
        }
    }
}

/// A key is among the monospace IDs exactly when a monospace face has it.
pub proof fn lemma_monospace_view_ids_has_key(faces: Seq<FaceView>, k: u64)
    ensures
        has_key(monospace_view_ids(faces), k) <==> lists_monospace(faces, k),
    decreases faces.len(),
{
    if faces.len() > 0 {
        let init = faces.drop_last();
        let n = faces.len() - 1;
        lemma_monospace_view_ids_has_key(init, k);
        assert(faces.last() == faces[n]);
        if lists_monospace(faces, k) {
            let i = choose|i: int|
                0 <= i < faces.len() && is_monospace_view(faces[i]) && #[trigger] view_key(faces[i]) == k;
            if i < n {
                assert(init[i] == faces[i]);
                assert(view_key(init[i]) == k);
                assert(lists_monospace(init, k));
            }
        }
        if lists_monospace(init, k) {
            let i = choose|i: int|
                0 <= i < init.len() && is_monospace_view(init[i]) && #[trigger] view_key(init[i]) == k;
            assert(faces[i] == init[i]);
            assert(view_key(faces[i]) == k);
        }
        if is_monospace_view(faces[n]) && view_key(faces[n]) == k {
            assert(lists_monospace(faces, k));
        }
        let rest = monospace_view_ids(init);
        if is_monospace_view(faces.last()) {
            let s = rest.push(FontId { key: view_key(faces.last()) });
            if has_key(rest, k) {
                let j = choose|j: int| 0 <= j < rest.len() && #[trigger] rest[j].key == k;
                assert(s[j] == rest[j]);
            }
            if view_key(faces[n]) == k {
                assert(s[rest.len() as int].key == k);
            }
            if has_key(s, k) {
                let j = choose|j: int| 0 <= j < s.len() && #[trigger] s[j].key == k;
                if j < rest.len() {
                    assert(s[j] == rest[j]);
                    assert(has_key(rest, k));
                }
            }
        }
    }
}

/// A key is in a sequence of IDs exactly when the ID with that key is.
pub proof fn lemma_has_key_contains(s: Seq<FontId>, k: u64)
    ensures
        has_key(s, k) <==> s.contains(FontId { key: k }),
{
    if has_key(s, k) {
        let j = choose|j: int| 0 <= j < s.len() && #[trigger] s[j].key == k;
        assert(s[j] == FontId { key: k });
    }
    if s.contains(FontId { key: k }) {
        let j = choose|j: int| 0 <= j < s.len() && s[j] == FontId { key: k };
        assert(s[j].key == k);
    }
}

/// A sequence of IDs with the multiset of the monospace IDs of `faces`
/// holds a key exactly when a monospace face has it.
pub proof fn lemma_monospace_ids_has_key(s: Seq<FontId>, faces: Seq<FaceView>, k: u64)
    requires
        s.to_multiset() == monospace_view_ids(faces).to_multiset(),
    ensures
        has_key(s, k) <==> lists_monospace(faces, k),
{
    let x = FontId { key: k };
    lemma_has_key_contains(s, k);
    lemma_has_key_contains(monospace_view_ids(faces), k);
    lemma_monospace_view_ids_has_key(faces, k);
    vstd::seq_lib::to_multiset_contains(s, x);
    vstd::seq_lib::to_multiset_contains(monospace_view_ids(faces), x);
}

/// Some face of `faces` with the key `k` lists the family `name`.
pub open spec fn face_lists_family(faces: Seq<FaceView>, k: u64, name: Seq<char>) -> bool {
    exists|i: int|
        0 <= i < faces.len() && #[trigger] view_key(faces[i]) == k && lists_family(faces[i].2, name)
}

/// Whether `k` can be the default key: its weight matches (exactly, or by
/// a variable weight axis) and its face lists the family `name`.
pub open spec fn is_default_candidate(k: FontMatchKey, faces: Seq<FaceView>, name: Seq<char>) -> bool {
    &&& (k.font_weight_diff == 0 || k.variable_weight_match)
    &&& face_lists_family(faces, k.id.key, name)
}

/// The first key of `l`, in order, that can be the default key.
pub open spec fn first_default(l: Seq<FontMatchKey>, faces: Seq<FaceView>, name: Seq<char>) -> Option<
    FontMatchKey,
>
    decreases l.len(),
{
    if l.len() == 0 {
        None
    } else {
        match first_default(l.drop_last(), faces, name) {
            Some(k) => Some(k),
            None => if is_default_candidate(l.last(), faces, name) {
                Some(l.last())
            } else {
                None
            },
        }
    }
}

/// The default key is the first key of the list, in order, whose weight
/// matches (exactly or by a variable weight axis) and whose face lists the
/// family `name`: every key before it fails one of the two; and there is
/// none only when no key of the list passes both.
pub proof fn lemma_default_is_first_qualifying(l: Seq<FontMatchKey>, faces: Seq<FaceView>, name: Seq<char>)
    ensures
        first_default(l, faces, name) matches Some(k) ==> exists|i: int|
            {
                &&& 0 <= i < l.len()
                &&& #[trigger] l[i] == k
                &&& (k.font_weight_diff == 0 || k.variable_weight_match)
                &&& face_lists_family(faces, k.id.key, name)
                &&& forall|j: int|
                    0 <= j < i ==> !((l[j].font_weight_diff == 0 || l[j].variable_weight_match)
                        && face_lists_family(faces, l[j].id.key, name))
            },
        first_default(l, faces, name) is None ==> forall|j: int|
            0 <= j < l.len() ==> !((l[j].font_weight_diff == 0 || l[j].variable_weight_match)
                && face_lists_family(faces, l[j].id.key, name)),
    decreases l.len(),
{
    if l.len() > 0 {
        let init = l.drop_last();
        lemma_default_is_first_qualifying(init, faces, name);
        let n = l.len() - 1;
        assert(l.last() == l[n]);
        match first_default(init, faces, name) {
            Some(k) => {
                let i = choose|i: int|
                    {
                        &&& 0 <= i < init.len()
                        &&& #[trigger] init[i] == k
                        &&& (k.font_weight_diff == 0 || k.variable_weight_match)
                        &&& face_lists_family(faces, k.id.key, name)
                        &&& forall|j: int|
                            0 <= j < i ==> !((init[j].font_weight_diff == 0
                                || init[j].variable_weight_match) && face_lists_family(
                                faces,
                                init[j].id.key,
                                name,
                            ))
                    };
                assert(l[i] == init[i]);
                assert forall|j: int| 0 <= j < i implies !((l[j].font_weight_diff == 0
                    || l[j].variable_weight_match) && face_lists_family(
                    faces,
                    l[j].id.key,
                    name,
                )) by {
                    assert(l[j] == init[j]);
                }
            },
            None => {
                assert forall|j: int| 0 <= j < n implies !((l[j].font_weight_diff == 0
                    || l[j].variable_weight_match) && face_lists_family(
                    faces,
                    l[j].id.key,
                    name,
                )) by {
                    assert(l[j] == init[j]);
                }
            },
        }
    }
}

/// A face lists a family name when the name stands anywhere in its list of
/// family names, and only then.
pub proof fn lemma_face_lists_family_any_position(faces: Seq<FaceView>, k: u64, name: Seq<char>)
    ensures
        face_lists_family(faces, k, name) <==> exists|i: int, p: int|
            0 <= i < faces.len() && #[trigger] view_key(faces[i]) == k && 0 <= p < faces[i].2.len()
                && #[trigger] faces[i].2[p] == name,
{
    if face_lists_family(faces, k, name) {
        let i = choose|i: int|
            0 <= i < faces.len() && #[trigger] view_key(faces[i]) == k && lists_family(
                faces[i].2,
                name,
            );
        let p = choose|p: int| 0 <= p < faces[i].2.len() && #[trigger] faces[i].2[p] == name;
        assert(view_key(faces[i]) == k && faces[i].2[p] == name);
    }
    if exists|i: int, p: int|
        0 <= i < faces.len() && #[trigger] view_key(faces[i]) == k && 0 <= p < faces[i].2.len()
            && #[trigger] faces[i].2[p] == name {
        let (i, p) = choose|i: int, p: int|
            0 <= i < faces.len() && #[trigger] view_key(faces[i]) == k && 0 <= p < faces[i].2.len()
                && #[trigger] faces[i].2[p] == name;
        assert(lists_family(faces[i].2, name));
    }
}

/// The keys of `l` whose faces are monospace faces of `faces`, in order.
pub open spec fn monospace_keys(l: Seq<FontMatchKey>, faces: Seq<FaceView>) -> Seq<FontMatchKey>
    decreases l.len(),
{
    if l.len() == 0 {
        Seq::empty()
    } else {
        let rest = monospace_keys(l.drop_last(), faces);
        if lists_monospace(faces, l.last().id.key) {
            rest.push(l.last())
        } else {
            rest
        }
    }
}

/// `m` is the monospace match data drawn from the match list `l`: its keys
/// are the monospace keys of `l`, in order; its default key is the first
/// key of `l` whose weight matches and whose face lists the family `name`;
/// and its ranking is the word-independent ranking of its keys, or empty
/// where words are ranked by their coverage (`monospace_fallback`).
pub open spec fn mono_matches_from(
    m: MonoFontMatches,
    l: Seq<FontMatchKey>,
    faces: Seq<FaceView>,
    name: Seq<char>,
    monospace_fallback: bool,
) -> bool {
    &&& m.keys@ == monospace_keys(l, faces)
    &&& m.default_key == first_default(l, faces, name)
    &&& if monospace_fallback {
        m.ranked@.len() == 0
    } else {
        ranking_is_word_independent(m.ranked@, m.keys@, m.default_key)
    }
}

/// `m` is the monospace match data for `attrs` drawn from some match list
/// for `attrs` over `faces`.
pub open spec fn is_mono_matches(
    m: MonoFontMatches,
    attrs: FontMatchAttrs,
    faces: Seq<FaceView>,
    generics: (Seq<char>, Seq<char>, Seq<char>, Seq<char>, Seq<char>),
    monospace_fallback: bool,
) -> bool {
    exists|l: Seq<FontMatchKey>| #[trigger]
        is_some_match_list(l, attrs, faces, generics) && mono_matches_from(
            m,
            l,
            faces,
            resolve_family(family_view(&attrs.family), generics),
            monospace_fallback,
        )
}

/// Monospace match data for some attributes is that for any attributes
/// equal to them.
pub proof fn lemma_mono_matches_same_attrs(
    m: &MonoFontMatches,
    a: &FontMatchAttrs,
    b: &FontMatchAttrs,
    faces: Seq<FaceView>,
    generics: (Seq<char>, Seq<char>, Seq<char>, Seq<char>, Seq<char>),
    monospace_fallback: bool,
)
    requires
        is_mono_matches(*m, *a, faces, generics, monospace_fallback),
        attrs_view(a) == attrs_view(b),
    ensures
        is_mono_matches(*m, *b, faces, generics, monospace_fallback),
{
    let l = choose|l: Seq<FontMatchKey>| #[trigger]
        is_some_match_list(l, *a, faces, generics) && mono_matches_from(
            *m,
            l,
            faces,
            resolve_family(family_view(&a.family), generics),
            monospace_fallback,
        );
    lemma_match_list_same_attrs(l, a, b, faces, generics);
}

/// The summary of a face record, if its ID text is a number.
pub fn summarize_record(rec: &FaceRecord) -> (r: Option<FaceSummary>)
    ensures
        r is Some <==> text_key(rec.id_text@) is Some,
        r matches Some(s) ==> {
            &&& Some(s.id.key) == text_key(rec.id_text@)
            &&& s.post_script_name@ == rec.post_script_name@
            &&& s.style == rec.style
            &&& s.weight == rec.weight
            &&& s.stretch == rec.stretch
            &&& s.monospaced == rec.monospaced
        },
{
    match FontId::from_text(rec.id_text.as_str()) {
        Some(id) => Some(
            FaceSummary {
                id,
                post_script_name: rec.post_script_name.clone(),
                style: rec.style,
                weight: rec.weight,
                stretch: rec.stretch,
                monospaced: rec.monospaced,
            },
        ),
        None => None,
    }
}

/// Whether a face record is of a monospace face.
pub fn record_is_monospace(rec: &FaceRecord) -> (r: bool)
    ensures
        r == is_monospace_view(record_view(*rec)),
{
    rec.monospaced && !str_contains(rec.post_script_name.as_str(), "Emoji")
}

/// Fallback candidates that rank the same are the same candidate.
pub proof fn lemma_info_rank_tells_apart(a: MonospaceFallbackInfo, b: MonospaceFallbackInfo)
    requires
        a.rank() == b.rank(),
    ensures
        a == b,
{
    let p1 = option_u16_rank(a.font_weight_diff);
    let q1 = option_u16_rank(b.font_weight_diff);
    let p2 = option_usize_rank(a.codepoint_non_matches);
    let q2 = option_usize_rank(b.codepoint_non_matches);
    assert(0 <= p2 < 0x2_0000_0000_0000_0000 && 0 <= q2 < 0x2_0000_0000_0000_0000);
    assert(0 <= p1 && 0 <= q1);
    let r2a = p1 * 0x2_0000_0000_0000_0000 + p2;
    let r2b = q1 * 0x2_0000_0000_0000_0000 + q2;
    let r3a = r2a * 0x1_0000 + a.font_weight;
    let r3b = r2b * 0x1_0000 + b.font_weight;
    let ka = a.id.key as int;
    let kb = b.id.key as int;
    assert(r3a * 0x1_0000_0000_0000_0000 + ka == r3b * 0x1_0000_0000_0000_0000 + kb);
    assert(ka == kb && r3a == r3b) by (nonlinear_arith)
        requires
            r3a * 0x1_0000_0000_0000_0000 + ka == r3b * 0x1_0000_0000_0000_0000 + kb,
            0 <= ka < 0x1_0000_0000_0000_0000,
            0 <= kb < 0x1_0000_0000_0000_0000,
    ;
    let wa = a.font_weight as int;
    let wb = b.font_weight as int;
    assert(wa == wb && r2a == r2b) by (nonlinear_arith)
        requires
            r2a * 0x1_0000 + wa == r2b * 0x1_0000 + wb,
            0 <= wa < 0x1_0000,
            0 <= wb < 0x1_0000,
    ;
    assert(p2 == q2 && p1 == q1) by (nonlinear_arith)
        requires
            p1 * 0x2_0000_0000_0000_0000 + p2 == q1 * 0x2_0000_0000_0000_0000 + q2,
            0 <= p2 < 0x2_0000_0000_0000_0000,
            0 <= q2 < 0x2_0000_0000_0000_0000,
    ;
    assert(a.font_weight_diff == b.font_weight_diff);
    assert(a.codepoint_non_matches == b.codepoint_non_matches);
    assert(a.id == b.id);
}

/// Monospace match data is determined by the match list it is drawn from,
/// the faces and the requested family's name.
pub proof fn lemma_mono_matches_determined(
    m1: &MonoFontMatches,
    m2: &MonoFontMatches,
    l: Seq<FontMatchKey>,
    faces: Seq<FaceView>,
    name: Seq<char>,
    monospace_fallback: bool,
)
    requires
        mono_matches_from(*m1, l, faces, name, monospace_fallback),
        mono_matches_from(*m2, l, faces, name, monospace_fallback),
    ensures
        m1.keys@ == m2.keys@,
        m1.default_key == m2.default_key,
        m1.ranked@ == m2.ranked@,
{
    if monospace_fallback {
        assert(m1.ranked@ =~= m2.ranked@);
    } else {
        let h: int = if m1.default_key is Some {
            1
        } else {
            0
        };
        let t1 = m1.ranked@.skip(h);
        let t2 = m2.ranked@.skip(h);
        assert forall|i: int, j: int|
            0 <= i < t1.len() && 0 <= j < t1.len() && (#[trigger] t1[i]).rank() == (#[trigger] t1[j]).rank()
                implies t1[i] == t1[j] by {
            lemma_info_rank_tells_apart(t1[i], t1[j]);
        }
        lemma_sorted_permutation_unique(t1, t2);
        assert(m1.ranked@ =~= m2.ranked@) by {
            assert forall|k: int| 0 <= k < m1.ranked@.len() implies m1.ranked@[k] == m2.ranked@[k] by {
                if k < h {
                    assert(m1.ranked@[k] == m1.ranked@.take(h)[k]);
                    assert(m2.ranked@[k] == m2.ranked@.take(h)[k]);
                } else {
                    assert(m1.ranked@[k] == t1[k - h]);
                    assert(m2.ranked@[k] == t2[k - h]);
                }
            }
        }
    }
}

/// `r` is a match list for `attrs` over `faces` whose weight-axis answers
/// come from `weight_axis_covers`.
pub open spec fn is_match_list_from<F: Fn(FontId, u16) -> bool>(
    r: Seq<FontMatchKey>,
    attrs: FontMatchAttrs,
    faces: Seq<FaceView>,
    generics: (Seq<char>, Seq<char>, Seq<char>, Seq<char>, Seq<char>),
    weight_axis_covers: F,
) -> bool {
    exists|covers: Seq<bool>|
        #[trigger] axis_answers_from(attrs, faces, covers, weight_axis_covers) && is_match_list(
            r,
            attrs,
            faces,
            generics,
            covers,
        )
}

/// A match list made with a weight-axis test for some attributes is one
/// made with that test for any attributes equal to them.
pub proof fn lemma_match_list_from_same_attrs<F: Fn(FontId, u16) -> bool>(
    r: Seq<FontMatchKey>,
    a: &FontMatchAttrs,
    b: &FontMatchAttrs,
    faces: Seq<FaceView>,
    generics: (Seq<char>, Seq<char>, Seq<char>, Seq<char>, Seq<char>),
    covers: Seq<bool>,
    weight_axis_covers: F,
)
    requires
        axis_answers_from(*a, faces, covers, weight_axis_covers),
        is_match_list(r, *a, faces, generics, covers),
        attrs_view(a) == attrs_view(b),
    ensures
        axis_answers_from(*b, faces, covers, weight_axis_covers),
        is_match_list(r, *b, faces, generics, covers),
{
    assert(face_keys(*a, faces, covers) =~= face_keys(*b, faces, covers));
}

/// `m` is drawn from a match list for `attrs` whose weight-axis answers
/// come from `weight_axis_covers`.
pub open spec fn mono_drawn_with<F: Fn(FontId, u16) -> bool>(
    m: MonoFontMatches,
    attrs: FontMatchAttrs,
    faces: Seq<FaceView>,
    generics: (Seq<char>, Seq<char>, Seq<char>, Seq<char>, Seq<char>),
    monospace_fallback: bool,
    weight_axis_covers: F,
) -> bool {
    exists|l: Seq<FontMatchKey>|
        #[trigger] is_match_list_from(l, attrs, faces, generics, weight_axis_covers)
            && mono_matches_from(
            m,
            l,
            faces,
            resolve_family(family_view(&attrs.family), generics),
            monospace_fallback,
        )
}

/// Monospace data drawn with a weight-axis test for some attributes is so
/// for any attributes equal to them.
pub proof fn lemma_mono_drawn_with_same_attrs<F: Fn(FontId, u16) -> bool>(
    m: &MonoFontMatches,
    a: &FontMatchAttrs,
    b: &FontMatchAttrs,
    faces: Seq<FaceView>,
    generics: (Seq<char>, Seq<char>, Seq<char>, Seq<char>, Seq<char>),
    monospace_fallback: bool,
    weight_axis_covers: F,
)
    requires
        mono_drawn_with(*m, *a, faces, generics, monospace_fallback, weight_axis_covers),
        attrs_view(a) == attrs_view(b),
    ensures
        mono_drawn_with(*m, *b, faces, generics, monospace_fallback, weight_axis_covers),
{
    let l = choose|l: Seq<FontMatchKey>|
        #[trigger] is_match_list_from(l, *a, faces, generics, weight_axis_covers)
            && mono_matches_from(
            *m,
            l,
            faces,
            resolve_family(family_view(&a.family), generics),
            monospace_fallback,
        );
    let covers = choose|covers: Seq<bool>|
        #[trigger] axis_answers_from(*a, faces, covers, weight_axis_covers) && is_match_list(
            l,
            *a,
            faces,
            generics,
            covers,
        );
    lemma_match_list_from_same_attrs(l, a, b, faces, generics, covers, weight_axis_covers);
    assert(is_match_list_from(l, *b, faces, generics, weight_axis_covers));
}

/// Font matching is repeatable: two match lists made with the same
/// weight-axis test, for the same attributes over the same faces and
/// generic family names, are the same list when the test answers each
/// question one way.
pub proof fn lemma_match_lists_from_agree<F: Fn(FontId, u16) -> bool>(
    r1: Seq<FontMatchKey>,
    r2: Seq<FontMatchKey>,
    attrs: FontMatchAttrs,
    faces: Seq<FaceView>,
    generics: (Seq<char>, Seq<char>, Seq<char>, Seq<char>, Seq<char>),
    weight_axis_covers: F,
)
    requires
        ids_well_written(faces),
        forall|id: FontId, w: u16, a: bool, b: bool|
            weight_axis_covers.ensures((id, w), a) && weight_axis_covers.ensures((id, w), b) ==> a
                == b,
        is_match_list_from(r1, attrs, faces, generics, weight_axis_covers),
        is_match_list_from(r2, attrs, faces, generics, weight_axis_covers),
    ensures
        r1 == r2,
{
    let c1 = choose|covers: Seq<bool>|
        #[trigger] axis_answers_from(attrs, faces, covers, weight_axis_covers) && is_match_list(
            r1,
            attrs,
            faces,
            generics,
            covers,
        );
    let c2 = choose|covers: Seq<bool>|
        #[trigger] axis_answers_from(attrs, faces, covers, weight_axis_covers) && is_match_list(
            r2,
            attrs,
            faces,
            generics,
            covers,
        );
    lemma_font_matches_determined(r1, r2, attrs, faces, generics, c1, c2, weight_axis_covers);
}

/// Monospace match data drawn with a weight-axis test that answers each
/// question one way has the monospace keys and the default key of every
/// match list made with that test for the same attributes; so two such
/// data agree in full.
pub proof fn lemma_mono_drawn_with_follows<F: Fn(FontId, u16) -> bool>(
    m: &MonoFontMatches,
    m2: &MonoFontMatches,
    fm: Seq<FontMatchKey>,
    attrs: FontMatchAttrs,
    faces: Seq<FaceView>,
    generics: (Seq<char>, Seq<char>, Seq<char>, Seq<char>, Seq<char>),
    monospace_fallback: bool,
    weight_axis_covers: F,
)
    requires
        ids_well_written(faces),
        forall|id: FontId, w: u16, a: bool, b: bool|
            weight_axis_covers.ensures((id, w), a) && weight_axis_covers.ensures((id, w), b) ==> a
                == b,
        mono_drawn_with(*m, attrs, faces, generics, monospace_fallback, weight_axis_covers),
        mono_drawn_with(*m2, attrs, faces, generics, monospace_fallback, weight_axis_covers),
        is_match_list_from(fm, attrs, faces, generics, weight_axis_covers),
    ensures
        m.keys@ == monospace_keys(fm, faces),
        m.default_key == first_default(
            fm,
            faces,
            resolve_family(family_view(&attrs.family), generics),
        ),
        m.keys@ == m2.keys@,
        m.default_key == m2.default_key,
        m.ranked@ == m2.ranked@,
{
    let name = resolve_family(family_view(&attrs.family), generics);
    let l1 = choose|l: Seq<FontMatchKey>|
        #[trigger] is_match_list_from(l, attrs, faces, generics, weight_axis_covers)
            && mono_matches_from(*m, l, faces, name, monospace_fallback);
    let l2 = choose|l: Seq<FontMatchKey>|
        #[trigger] is_match_list_from(l, attrs, faces, generics, weight_axis_covers)
            && mono_matches_from(*m2, l, faces, name, monospace_fallback);
    lemma_match_lists_from_agree(l1, fm, attrs, faces, generics, weight_axis_covers);
    lemma_match_lists_from_agree(l2, fm, attrs, faces, generics, weight_axis_covers);
    lemma_mono_matches_determined(m, m2, fm, faces, name, monospace_fallback);
}

} // verus!
