use std::collections::HashMap;
use std::sync::Arc;

use vstd::prelude::*;

use crate::font::attrs::{FontMatchAttrs, attrs_view, family_view};
use crate::font::codepoint_cache::FontCachedCodepointSupportInfo;
use crate::font::db::{
    FaceView, database_best_face, database_contents, database_faces, database_family_name, database_generic_families,
    face_script_tags, lists_family, query_database, record_view, resolve_family,
    set_monospace_family, set_sans_serif_family, set_serif_family, share,
};
use crate::font::font_id::FontId;
use crate::font::ids::{
    contains_id, has_key, insert_id_sorted, lemma_has_key_take_succ, strictly_sorted_ids,
};
use crate::font::match_key::{FontMatchKey, abs_diff, first_with_id, promote_key, spec_abs_diff};
use crate::font::model::{
    axis_answers_fit, axis_answers_from, face_keys, face_lists_family, first_default,
    ids_well_written, is_match_list, is_mono_matches, is_monospace_view, is_some_match_list,
    lemma_match_list_from_same_attrs, lemma_match_list_same_attrs, lemma_mono_drawn_with_same_attrs,
    lemma_mono_matches_same_attrs, lemma_view_key_parses, mono_drawn_with, is_match_list_from,
    lemma_view_keys_differ, lists_monospace, mono_matches_from, monospace_keys, monospace_view_ids,
    record_is_monospace, summarize_record, view_key, view_match_key,
};
use crate::font::monospace::{
    LoadedFont, MonoFontMatches, MonospaceFallbackInfo, default_covers_word, find_font,
    is_word_ranking, lemma_supported_count_bound, lookup_codepoints, supported_count,
    word_candidates, word_default_entry, word_independent_ranking,
};
use crate::font::order::{sort_by_rank, sorted_by_rank};

verus! {

broadcast use vstd::std_specs::hash::group_hash_axioms;

/// A four-byte OpenType script tag as one big-endian number.
pub open spec fn spec_tag_number(tag: [u8; 4]) -> u32 {
    (((tag@[0] as int * 0x100 + tag@[1]) * 0x100 + tag@[2]) * 0x100 + tag@[3]) as u32
}

/// A four-byte OpenType script tag as one big-endian number.
pub fn tag_number(tag: [u8; 4]) -> (r: u32)
    ensures
        r == spec_tag_number(tag),
{
    let a: u32 = tag[0] as u32;
    let b: u32 = tag[1] as u32;
    let c: u32 = tag[2] as u32;
    let d: u32 = tag[3] as u32;
    ((a * 0x100 + b) * 0x100 + c) * 0x100 + d
}

/// The lowercase of an ASCII character, as a byte.
pub open spec fn ascii_lower(c: char) -> u8 {
    if 'A' <= c <= 'Z' {
        (c as u32 + 32) as u8
    } else {
        c as u8
    }
}

/// Whether a script code makes a tag: four ASCII characters, as every
/// ISO 15924 code is.
pub open spec fn is_tag_code(code: Seq<char>) -> bool {
    &&& code.len() == 4
    &&& forall|i: int| 0 <= i < 4 ==> code[i] <= '\x7f'
}

/// The OpenType tag of such a code: its characters, lowercased.
pub open spec fn code_tag(code: Seq<char>) -> [u8; 4] {
    [ascii_lower(code[0]), ascii_lower(code[1]), ascii_lower(code[2]), ascii_lower(code[3])]
}

/// The tags of the codes that make tags, in order.
pub open spec fn codes_to_tags(codes: Seq<Seq<char>>) -> Seq<[u8; 4]>
    decreases codes.len(),
{
    if codes.len() == 0 {
        Seq::empty()
    } else {
        let rest = codes_to_tags(codes.drop_last());
        if is_tag_code(codes.last()) {
            rest.push(code_tag(codes.last()))
        } else {
            rest
        }
    }
}

/// The lowercase of an ASCII character, as a byte.
fn lower_byte(c: char) -> (r: u8)
    requires
        c <= '\x7f',
    ensures
        r == ascii_lower(c),
{
    if 'A' <= c && c <= 'Z' {
        (c as u32 + 32) as u8
    } else {
        c as u8
    }
}

/// The OpenType tag of a script code, if it is four ASCII characters.
pub fn code_tag_of(code: &str) -> (r: Option<[u8; 4]>)
    ensures
        r == (if is_tag_code(code@) {
            Some(code_tag(code@))
        } else {
            None
        }),
{
    let cs = crate::font::db::chars_of(code);
    if cs.len() != 4 {
        return None;
    }
    let mut i: usize = 0;
    while i < 4
        invariant
            cs@ == code@,
            cs@.len() == 4,
            0 <= i <= 4,
            forall|j: int| 0 <= j < i ==> cs@[j] <= '\x7f',
        decreases 4 - i,
    {
        if cs[i] > '\x7f' {
            return None;
        }
        i = i + 1;
    }
    Some([lower_byte(cs[0]), lower_byte(cs[1]), lower_byte(cs[2]), lower_byte(cs[3])])
}

/// The OpenType tags of script codes, for those that are four ASCII
/// characters, in order.
pub fn tags_of_codes(codes: &[String]) -> (r: Vec<[u8; 4]>)
    ensures
        r@ == codes_to_tags(codes@.map_values(|s: String| s@)),
{
    let ghost views = codes@.map_values(|s: String| s@);
    let mut tags: Vec<[u8; 4]> = Vec::new();
    let mut i: usize = 0;
    while i < codes.len()
        invariant
            0 <= i <= codes@.len(),
            views == codes@.map_values(|s: String| s@),
            tags@ == codes_to_tags(views.take(i as int)),
        decreases codes@.len() - i,
    {
        proof {
            assert(views.take(i + 1).drop_last() =~= views.take(i as int));
            assert(views.take(i + 1).last() == codes@[i as int]@);
        }
        if let Some(tag) = code_tag_of(codes[i].as_str()) {
            tags.push(tag);
        }
        i = i + 1;
    }
    assert(views.take(codes@.len() as int) =~= views);
    tags
}

/// Some tag in `tags` has the number `t`.
pub open spec fn tags_name(tags: Seq<[u8; 4]>, t: u32) -> bool {
    exists|j: int| 0 <= j < tags.len() && #[trigger] spec_tag_number(tags[j]) == t
}

/// Lists the face `id` under each of `tags` in a table of faces per tag
/// number, keeping each list sorted with each face once.
pub fn add_script_tags(map: &mut HashMap<u32, Vec<FontId>>, id: FontId, tags: &[[u8; 4]])
    requires
        forall|t: u32| #[trigger] old(map)@.contains_key(t) ==> strictly_sorted_ids(old(map)@[t]@),
    ensures
        forall|t: u32| #[trigger] final(map)@.contains_key(t) ==> strictly_sorted_ids(final(map)@[t]@),
        forall|t: u32|
            #[trigger] final(map)@.contains_key(t) <==> (old(map)@.contains_key(t) || tags_name(
                tags@,
                t,
            )),
        forall|t: u32, k: u64|
            final(map)@.contains_key(t) ==> (#[trigger] has_key(final(map)@[t]@, k) <==> ((old(
                map,
            )@.contains_key(t) && has_key(old(map)@[t]@, k)) || (k == id.key && tags_name(
                tags@,
                t,
            )))),
{
    let mut i: usize = 0;
    while i < tags.len()
        invariant
            0 <= i <= tags@.len(),
            forall|t: u32| #[trigger] map@.contains_key(t) ==> strictly_sorted_ids(map@[t]@),
            forall|t: u32|
                #[trigger] map@.contains_key(t) <==> (old(map)@.contains_key(t) || tags_name(
                    tags@.take(i as int),
                    t,
                )),
            forall|t: u32, k: u64|
                map@.contains_key(t) ==> (#[trigger] has_key(map@[t]@, k) <==> ((old(
                    map,
                )@.contains_key(t) && has_key(old(map)@[t]@, k)) || (k == id.key && tags_name(
                    tags@.take(i as int),
                    t,
                )))),
        decreases tags@.len() - i,
    {
        let tag: u32 = tag_number(tags[i]);
        let ghost before = map@;
        let mut ids = match map.remove(&tag) {
            Some(v) => v,
            None => Vec::new(),
        };
        let ghost list = ids@;
        assert(before.contains_key(tag) ==> list == before[tag]@);
        assert(!before.contains_key(tag) ==> list == Seq::<FontId>::empty());
        insert_id_sorted(&mut ids, id);
        map.insert(tag, ids);
        proof {
            let prev = tags@.take(i as int);
            let next = tags@.take(i + 1);
            assert forall|t: u32| tags_name(next, t) <==> (tags_name(prev, t) || t == tag) by {
                if tags_name(next, t) {
                    let j = choose|j: int| 0 <= j < next.len() && #[trigger] spec_tag_number(next[j]) == t;
                    if j < i {
                        assert(prev[j] == next[j]);
                    }
                }
                if tags_name(prev, t) {
                    let j = choose|j: int| 0 <= j < prev.len() && #[trigger] spec_tag_number(prev[j]) == t;
                    assert(next[j] == prev[j]);
                }
                if t == tag {
                    assert(next[i as int] == tags@[i as int]);
                    assert(spec_tag_number(next[i as int]) == t);
                }
            }
            assert forall|t: u32, k: u64| map@.contains_key(t) implies (#[trigger] has_key(map@[t]@, k) <==> ((old(
                map,
            )@.contains_key(t) && has_key(old(map)@[t]@, k)) || (k == id.key && tags_name(next, t)))) by {
                if t == tag {
                    if !before.contains_key(tag) {
                        assert(!has_key(list, k));
                    }
                } else {
                    assert(before.contains_key(t));
                    assert(map@[t] == before[t]);
                }
            }
        }
        i = i + 1;
    }
    assert(tags@.take(tags@.len() as int) =~= tags@);
}

/// Some script in `tags` lists a face with key `k`.
pub open spec fn scripts_list_key(map: Map<u32, Vec<FontId>>, tags: Seq<[u8; 4]>, k: u64) -> bool {
    exists|j: int|
        0 <= j < tags.len() && map.contains_key(spec_tag_number(#[trigger] tags[j])) && has_key(
            map[spec_tag_number(tags[j])]@,
            k,
        )
}

/// A face is listed for the first `j + 1` tags exactly when it is listed
/// for the first `j` or for tag `j`.
pub proof fn lemma_scripts_list_key_take_succ(
    map: Map<u32, Vec<FontId>>,
    tags: Seq<[u8; 4]>,
    j: int,
    k: u64,
)
    requires
        0 <= j < tags.len(),
    ensures
        scripts_list_key(map, tags.take(j + 1), k) <==> (scripts_list_key(map, tags.take(j), k)
            || (map.contains_key(spec_tag_number(tags[j])) && has_key(
            map[spec_tag_number(tags[j])]@,
            k,
        ))),
{
    let next = tags.take(j + 1);
    let prev = tags.take(j);
    if scripts_list_key(map, next, k) {
        let a = choose|a: int|
            0 <= a < next.len() && map.contains_key(spec_tag_number(#[trigger] next[a]))
                && has_key(map[spec_tag_number(next[a])]@, k);
        if a < j {
            assert(prev[a] == next[a]);
        }
    }
    if scripts_list_key(map, prev, k) {
        let a = choose|a: int|
            0 <= a < prev.len() && map.contains_key(spec_tag_number(#[trigger] prev[a]))
                && has_key(map[spec_tag_number(prev[a])]@, k);
        assert(next[a] == prev[a]);
    }
    if map.contains_key(spec_tag_number(tags[j])) && has_key(map[spec_tag_number(tags[j])]@, k) {
        assert(next[j] == tags[j]);
    }
}

/// Whether cache entry `i` is for these attributes.
pub open spec fn attrs_entry_is<T>(cache: Seq<(FontMatchAttrs, T)>, i: int, attrs: FontMatchAttrs) -> bool {
    &&& 0 <= i < cache.len()
    &&& attrs_view(&cache[i].0) == attrs_view(&attrs)
}

/// The value of the first cache entry for these attributes.
pub open spec fn first_attrs_entry<T>(cache: Seq<(FontMatchAttrs, T)>, attrs: FontMatchAttrs) -> T {
    let i = choose|i: int|
        attrs_entry_is(cache, i, attrs) && forall|j: int|
            0 <= j < i ==> !#[trigger] attrs_entry_is(cache, j, attrs);
    cache[i].1
}

/// The first entry of `cache` for these attributes is at `i`.
pub proof fn lemma_first_attrs_entry<T>(cache: Seq<(FontMatchAttrs, T)>, i: int, attrs: FontMatchAttrs)
    requires
        attrs_entry_is(cache, i, attrs),
        forall|j: int| 0 <= j < i ==> !#[trigger] attrs_entry_is(cache, j, attrs),
    ensures
        first_attrs_entry(cache, attrs) == cache[i].1,
{
    let k = choose|k: int|
        attrs_entry_is(cache, k, attrs) && forall|j: int|
            0 <= j < k ==> !#[trigger] attrs_entry_is(cache, j, attrs);
    if k < i {
    } else if k > i {
        assert(!attrs_entry_is(cache, i, attrs));
    }
}

/// Whether ranking cache entry `i` is for these attributes and word.
pub open spec fn ranking_entry_is(
    cache: Seq<(FontMatchAttrs, String, Arc<Vec<MonospaceFallbackInfo>>)>,
    i: int,
    attrs: FontMatchAttrs,
    word: Seq<char>,
) -> bool {
    &&& 0 <= i < cache.len()
    &&& attrs_view(&cache[i].0) == attrs_view(&attrs)
    &&& cache[i].1@ == word
}

/// The ranking of the first cache entry for these attributes and word.
pub open spec fn first_cached_ranking(
    cache: Seq<(FontMatchAttrs, String, Arc<Vec<MonospaceFallbackInfo>>)>,
    attrs: FontMatchAttrs,
    word: Seq<char>,
) -> Seq<MonospaceFallbackInfo> {
    let i = choose|i: int|
        ranking_entry_is(cache, i, attrs, word) && forall|j: int|
            0 <= j < i ==> !#[trigger] ranking_entry_is(cache, j, attrs, word);
    (*cache[i].2)@
}

/// The first entry of `cache` for these attributes and word is at `i`.
pub proof fn lemma_first_cached_ranking(
    cache: Seq<(FontMatchAttrs, String, Arc<Vec<MonospaceFallbackInfo>>)>,
    i: int,
    attrs: FontMatchAttrs,
    word: Seq<char>,
)
    requires
        ranking_entry_is(cache, i, attrs, word),
        forall|j: int| 0 <= j < i ==> !#[trigger] ranking_entry_is(cache, j, attrs, word),
    ensures
        first_cached_ranking(cache, attrs, word) == (*cache[i].2)@,
{
    let k = choose|k: int|
        ranking_entry_is(cache, k, attrs, word) && forall|j: int|
            0 <= j < k ==> !#[trigger] ranking_entry_is(cache, j, attrs, word);
    if k < i {
    } else if k > i {
        assert(!ranking_entry_is(cache, i, attrs, word));
    }
}

/// Whether `names` holds `name`.
pub fn names_contain(names: &Vec<String>, name: &str) -> (r: bool)
    ensures
        r == lists_family(names@.map_values(|n: String| n@), name@),
{
    let ghost views = names@.map_values(|n: String| n@);
    let wanted = name.to_owned();
    let mut i: usize = 0;
    while i < names.len()
        invariant
            0 <= i <= names@.len(),
            wanted@ == name@,
            views == names@.map_values(|n: String| n@),
            forall|j: int| 0 <= j < i ==> names@[j]@ != name@,
        decreases names@.len() - i,
    {
        if names[i] == wanted {
            assert(views[i as int] == name@);
            return true;
        }
        i = i + 1;
    }
    assert forall|j: int| 0 <= j < views.len() implies #[trigger] views[j] != name@ by {
        assert(views[j] == names@[j]@);
    }
    false
}

/// The faces of a database as records, with what the records say of the
/// database's contents.
fn faces_of(db: &fontdb::Database) -> (r: Vec<crate::font::db::FaceRecord>)
    ensures
        r@.len() == database_contents(*db).len(),
        forall|i: int|
            0 <= i < r@.len() ==> record_view(#[trigger] r@[i]) == database_contents(*db)[i],
        ids_well_written(database_contents(*db)),
{
    let r = database_faces(db);
    let ghost faces = database_contents(*db);
    proof {
        assert forall|i: int| 0 <= i < faces.len() implies crate::font::db::is_u64_text(#[trigger] faces[i].0) by {
            assert(record_view(r@[i]) == faces[i]);
        }
        assert forall|i: int, j: int| 0 <= i < j < faces.len() implies #[trigger] faces[i].0
            != #[trigger] faces[j].0 by {
            assert(record_view(r@[i]) == faces[i]);
            assert(record_view(r@[j]) == faces[j]);
            assert(r@[i].id_text@ != r@[j].id_text@);
        }
        assert(ids_well_written(faces));
    }
    r
}

/// The IDs of a database's monospace faces, sorted.
fn monospace_ids_in(db: &fontdb::Database) -> (r: Vec<FontId>)
    ensures
        ids_well_written(database_contents(*db)),
        sorted_by_rank(r@),
        r@.to_multiset() == monospace_view_ids(database_contents(*db)).to_multiset(),
{
    let recs = faces_of(db);
    let ghost faces = database_contents(*db);
    let mut ids: Vec<FontId> = Vec::new();
    let mut i: usize = 0;
    while i < recs.len()
        invariant
            0 <= i <= recs@.len(),
            recs@.len() == faces.len(),
            faces == database_contents(*db),
            forall|j: int| 0 <= j < recs@.len() ==> record_view(#[trigger] recs@[j]) == faces[j],
            ids_well_written(faces),
            ids@ == monospace_view_ids(faces.take(i as int)),
        decreases recs@.len() - i,
    {
        proof {
            assert(faces.take(i + 1).drop_last() =~= faces.take(i as int));
            assert(faces.take(i + 1).last() == faces[i as int]);
            assert(record_view(recs@[i as int]) == faces[i as int]);
            lemma_view_key_parses(faces, i as int);
        }
        if record_is_monospace(&recs[i]) {
            if let Some(id) = FontId::from_text(recs[i].id_text.as_str()) {
                ids.push(id);
            }
        }
        i = i + 1;
    }
    assert(faces.take(faces.len() as int) =~= faces);
    sort_by_rank(&ids)
}

/// Whether a monospace face of the database has the key `k`.
fn db_lists_monospace(db: &fontdb::Database, k: u64) -> (r: bool)
    ensures
        r == lists_monospace(database_contents(*db), k),
{
    let recs = faces_of(db);
    let ghost faces = database_contents(*db);
    let mut i: usize = 0;
    while i < recs.len()
        invariant
            0 <= i <= recs@.len(),
            recs@.len() == faces.len(),
            faces == database_contents(*db),
            forall|j: int| 0 <= j < recs@.len() ==> record_view(#[trigger] recs@[j]) == faces[j],
            ids_well_written(faces),
            forall|j: int|
                0 <= j < i ==> !(is_monospace_view(faces[j]) && #[trigger] view_key(faces[j]) == k),
        decreases recs@.len() - i,
    {
        proof {
            assert(record_view(recs@[i as int]) == faces[i as int]);
            lemma_view_key_parses(faces, i as int);
        }
        if record_is_monospace(&recs[i]) {
            if let Some(id) = FontId::from_text(recs[i].id_text.as_str()) {
                if id.key == k {
                    assert(is_monospace_view(faces[i as int]) && view_key(faces[i as int]) == k);
                    return true;
                }
            }
        }
        i = i + 1;
    }
    false
}

/// Some face among the first `n` of `tag_lists` has a tag numbered `t`.
pub open spec fn some_tag_named(tag_lists: Seq<Seq<[u8; 4]>>, n: int, t: u32) -> bool {
    exists|i: int, j: int|
        0 <= i < n && 0 <= j < tag_lists[i].len() && #[trigger] spec_tag_number(tag_lists[i][j])
            == t
}

/// Some face among the first `n`, with key `k` in `ids`, has a tag
/// numbered `t` in `tag_lists`.
pub open spec fn some_face_tagged(
    ids: Seq<FontId>,
    tag_lists: Seq<Seq<[u8; 4]>>,
    n: int,
    t: u32,
    k: u64,
) -> bool {
    exists|i: int, j: int|
        0 <= i < n && ids[i].key == k && 0 <= j < tag_lists[i].len() && #[trigger] spec_tag_number(
            tag_lists[i][j],
        ) == t
}

/// `table` lists, per script tag number, the faces `ids` under the tags
/// `tag_lists` gives them: a tag number is in it exactly when some face
/// has a tag with it, and its list holds exactly the faces with such a tag.
pub open spec fn is_script_table(
    table: Map<u32, Vec<FontId>>,
    ids: Seq<FontId>,
    tag_lists: Seq<Vec<[u8; 4]>>,
) -> bool {
    &&& forall|t: u32|
        #[trigger] table.contains_key(t) <==> exists|i: int, j: int|
            0 <= i < ids.len() && 0 <= j < tag_lists[i]@.len() && #[trigger] spec_tag_number(
                tag_lists[i]@[j],
            ) == t
    &&& forall|t: u32, k: u64|
        table.contains_key(t) ==> (#[trigger] has_key(table[t]@, k) <==> exists|i: int, j: int|
            0 <= i < ids.len() && ids[i].key == k && 0 <= j < tag_lists[i]@.len()
                && #[trigger] spec_tag_number(tag_lists[i]@[j]) == t)
}

/// In a script table, every face is listed under every tag it has.
pub proof fn lemma_script_table_lists_each_face(
    table: Map<u32, Vec<FontId>>,
    ids: Seq<FontId>,
    tag_lists: Seq<Vec<[u8; 4]>>,
    i: int,
    j: int,
)
    requires
        is_script_table(table, ids, tag_lists),
        0 <= i < ids.len(),
        0 <= j < tag_lists[i]@.len(),
    ensures
        table.contains_key(spec_tag_number(tag_lists[i]@[j])),
        has_key(table[spec_tag_number(tag_lists[i]@[j])]@, ids[i].key),
{
    let t = spec_tag_number(tag_lists[i]@[j]);
    assert(table.contains_key(t));
    assert(has_key(table[t]@, ids[i].key));
}

/// The table of faces per script tag number for the faces `ids`, where
/// `tag_lists[i]` are the script tags of face `ids[i]`: a tag number is in
/// the table exactly when some face has a tag with it, and its list holds
/// exactly the faces that have such a tag, sorted by ID with each once.
pub fn script_table(ids: &Vec<FontId>, tag_lists: &Vec<Vec<[u8; 4]>>) -> (r: HashMap<u32, Vec<FontId>>)
    requires
        ids@.len() == tag_lists@.len(),
    ensures
        forall|t: u32| #[trigger] r@.contains_key(t) ==> strictly_sorted_ids(r@[t]@),
        forall|t: u32|
            #[trigger] r@.contains_key(t) <==> exists|i: int, j: int|
                0 <= i < ids@.len() && 0 <= j < tag_lists@[i]@.len() && #[trigger] spec_tag_number(
                    tag_lists@[i]@[j],
                ) == t,
        forall|t: u32, k: u64|
            r@.contains_key(t) ==> (#[trigger] has_key(r@[t]@, k) <==> exists|i: int, j: int|
                0 <= i < ids@.len() && ids@[i].key == k && 0 <= j < tag_lists@[i]@.len()
                    && #[trigger] spec_tag_number(tag_lists@[i]@[j]) == t),
{
    let ghost lists = tag_lists@.map_values(|v: Vec<[u8; 4]>| v@);
    let mut map: HashMap<u32, Vec<FontId>> = HashMap::new();
    let mut i: usize = 0;
    while i < ids.len()
        invariant
            0 <= i <= ids@.len(),
            ids@.len() == tag_lists@.len(),
            lists == tag_lists@.map_values(|v: Vec<[u8; 4]>| v@),
            forall|t: u32| #[trigger] map@.contains_key(t) ==> strictly_sorted_ids(map@[t]@),
            forall|t: u32| #[trigger] map@.contains_key(t) <==> some_tag_named(lists, i as int, t),
            forall|t: u32, k: u64|
                map@.contains_key(t) ==> (#[trigger] has_key(map@[t]@, k) <==> some_face_tagged(
                    ids@,
                    lists,
                    i as int,
                    t,
                    k,
                )),
        decreases ids@.len() - i,
    {
        let ghost before = map@;
        add_script_tags(&mut map, ids[i], tag_lists[i].as_slice());
        proof {
            assert(lists[i as int] == tag_lists@[i as int]@);
            assert forall|t: u32| #[trigger] map@.contains_key(t) <==> some_tag_named(
                lists,
                i + 1,
                t,
            ) by {
                if some_tag_named(lists, i + 1, t) {
                    let (a, b) = choose|a: int, b: int|
                        0 <= a < i + 1 && 0 <= b < lists[a].len() && #[trigger] spec_tag_number(
                            lists[a][b],
                        ) == t;
                    if a < i {
                        assert(some_tag_named(lists, i as int, t));
                    } else {
                        assert(tags_name(tag_lists@[i as int]@, t));
                    }
                }
                if before.contains_key(t) {
                    let (a, b) = choose|a: int, b: int|
                        0 <= a < i && 0 <= b < lists[a].len() && #[trigger] spec_tag_number(
                            lists[a][b],
                        ) == t;
                    assert(some_tag_named(lists, i + 1, t));
                }
                if tags_name(tag_lists@[i as int]@, t) {
                    let b = choose|b: int|
                        0 <= b < tag_lists@[i as int]@.len() && #[trigger] spec_tag_number(
                            tag_lists@[i as int]@[b],
                        ) == t;
                    assert(spec_tag_number(lists[i as int][b]) == t);
                }
            }
            assert forall|t: u32, k: u64| map@.contains_key(t) implies (#[trigger] has_key(
                map@[t]@,
                k,
            ) <==> some_face_tagged(ids@, lists, i + 1, t, k)) by {
                if some_face_tagged(ids@, lists, i + 1, t, k) {
                    let (a, b) = choose|a: int, b: int|
                        0 <= a < i + 1 && ids@[a].key == k && 0 <= b < lists[a].len()
                            && #[trigger] spec_tag_number(lists[a][b]) == t;
                    if a < i {
                        assert(some_face_tagged(ids@, lists, i as int, t, k));
                        assert(some_tag_named(lists, i as int, t));
                    } else {
                        assert(tags_name(tag_lists@[i as int]@, t));
                    }
                }
                if before.contains_key(t) && has_key(before[t]@, k) {
                    let (a, b) = choose|a: int, b: int|
                        0 <= a < i && ids@[a].key == k && 0 <= b < lists[a].len()
                            && #[trigger] spec_tag_number(lists[a][b]) == t;
                    assert(some_face_tagged(ids@, lists, i + 1, t, k));
                }
                if k == ids@[i as int].key && tags_name(tag_lists@[i as int]@, t) {
                    let b = choose|b: int|
                        0 <= b < tag_lists@[i as int]@.len() && #[trigger] spec_tag_number(
                            tag_lists@[i as int]@[b],
                        ) == t;
                    assert(spec_tag_number(lists[i as int][b]) == t);
                }
            }
        }
        i = i + 1;
    }
    proof {
        assert forall|t: u32| #[trigger] map@.contains_key(t) <==> exists|a: int, b: int|
            0 <= a < ids@.len() && 0 <= b < tag_lists@[a]@.len() && #[trigger] spec_tag_number(
                tag_lists@[a]@[b],
            ) == t by {
            if map@.contains_key(t) {
                let (a, b) = choose|a: int, b: int|
                    0 <= a < ids@.len() && 0 <= b < lists[a].len() && #[trigger] spec_tag_number(
                        lists[a][b],
                    ) == t;
                assert(lists[a] == tag_lists@[a]@);
            }
            if exists|a: int, b: int|
                0 <= a < ids@.len() && 0 <= b < tag_lists@[a]@.len() && #[trigger] spec_tag_number(
                    tag_lists@[a]@[b],
                ) == t {
                let (a, b) = choose|a: int, b: int|
                    0 <= a < ids@.len() && 0 <= b < tag_lists@[a]@.len() && #[trigger] spec_tag_number(
                        tag_lists@[a]@[b],
                    ) == t;
                assert(lists[a] == tag_lists@[a]@);
                assert(spec_tag_number(lists[a][b]) == t);
            }
        }
        assert forall|t: u32, k: u64| map@.contains_key(t) implies (#[trigger] has_key(map@[t]@, k)
            <==> exists|a: int, b: int|
            0 <= a < ids@.len() && ids@[a].key == k && 0 <= b < tag_lists@[a]@.len()
                && #[trigger] spec_tag_number(tag_lists@[a]@[b]) == t) by {
            if has_key(map@[t]@, k) {
                let (a, b) = choose|a: int, b: int|
                    0 <= a < ids@.len() && ids@[a].key == k && 0 <= b < lists[a].len()
                        && #[trigger] spec_tag_number(lists[a][b]) == t;
                assert(lists[a] == tag_lists@[a]@);
            }
            if exists|a: int, b: int|
                0 <= a < ids@.len() && ids@[a].key == k && 0 <= b < tag_lists@[a]@.len()
                    && #[trigger] spec_tag_number(tag_lists@[a]@[b]) == t {
                let (a, b) = choose|a: int, b: int|
                    0 <= a < ids@.len() && ids@[a].key == k && 0 <= b < tag_lists@[a]@.len()
                        && #[trigger] spec_tag_number(tag_lists@[a]@[b]) == t;
                assert(lists[a] == tag_lists@[a]@);
                assert(spec_tag_number(lists[a][b]) == t);
                assert(some_face_tagged(ids@, lists, ids@.len() as int, t, k));
            }
        }
    }
    map
}

/// The monospace faces of a database per OpenType script tag (as its
/// number), each list sorted with each face once: each monospace face, in
/// storage order, is listed under the script tags its font's script
/// records name (as [`script_table`] lays them out).
fn script_faces(db: &fontdb::Database) -> (r: HashMap<u32, Vec<FontId>>)
    ensures
        forall|t: u32| #[trigger] r@.contains_key(t) ==> strictly_sorted_ids(r@[t]@),
        forall|t: u32, i: int|
            r@.contains_key(t) && 0 <= i < r@[t]@.len() ==> lists_monospace(
                database_contents(*db),
                #[trigger] r@[t]@[i].key,
            ),
        exists|tag_lists: Seq<Vec<[u8; 4]>>|
            tag_lists.len() == monospace_view_ids(database_contents(*db)).len()
                && #[trigger] is_script_table(
                r@,
                monospace_view_ids(database_contents(*db)),
                tag_lists,
            ),
{
    let recs = faces_of(db);
    let ghost faces = database_contents(*db);
    let mut ids: Vec<FontId> = Vec::new();
    let mut tag_lists: Vec<Vec<[u8; 4]>> = Vec::new();
    let mut i: usize = 0;
    while i < recs.len()
        invariant
            0 <= i <= recs@.len(),
            recs@.len() == faces.len(),
            faces == database_contents(*db),
            forall|j: int| 0 <= j < recs@.len() ==> record_view(#[trigger] recs@[j]) == faces[j],
            ids_well_written(faces),
            ids@ == monospace_view_ids(faces.take(i as int)),
            tag_lists@.len() == ids@.len(),
        decreases recs@.len() - i,
    {
        proof {
            assert(faces.take(i + 1).drop_last() =~= faces.take(i as int));
            assert(faces.take(i + 1).last() == faces[i as int]);
            assert(record_view(recs@[i as int]) == faces[i as int]);
            lemma_view_key_parses(faces, i as int);
        }
        if record_is_monospace(&recs[i]) {
            if let Some(id) = FontId::from_text(recs[i].id_text.as_str()) {
                ids.push(id);
                tag_lists.push(face_script_tags(db, recs[i].raw));
            }
        }
        i = i + 1;
    }
    assert(faces.take(faces.len() as int) =~= faces);
    let table = script_table(&ids, &tag_lists);
    proof {
        assert(is_script_table(table@, ids@, tag_lists@));
        assert forall|t: u32, j: int|
            table@.contains_key(t) && 0 <= j < table@[t]@.len() implies lists_monospace(
            faces,
            #[trigger] table@[t]@[j].key,
        ) by {
            let k = table@[t]@[j].key;
            assert(has_key(table@[t]@, k));
            let (a, b) = choose|a: int, b: int|
                0 <= a < ids@.len() && ids@[a].key == k && 0 <= b < tag_lists@[a]@.len()
                    && #[trigger] spec_tag_number(tag_lists@[a]@[b]) == t;
            assert(has_key(ids@, k));
            crate::font::model::lemma_monospace_view_ids_has_key(faces, k);
        }
    }
    table
}

/// The ranking `r` is that of `word` for the monospace data `mono`, where
/// the faces listed for the scripts `tags` in `per_script` are the only
/// candidates besides the default face, when any face is listed for them.
pub open spec fn is_script_ranking(
    r: Seq<MonospaceFallbackInfo>,
    mono: MonoFontMatches,
    per_script: Map<u32, Vec<FontId>>,
    tags: Seq<[u8; 4]>,
    fonts: Seq<LoadedFont>,
    word: Seq<char>,
) -> bool {
    exists|ids: Seq<FontId>|
        {
            &&& strictly_sorted_ids(ids)
            &&& forall|k: u64| has_key(ids, k) <==> scripts_list_key(per_script, tags, k)
            &&& #[trigger] is_word_ranking(r, mono.keys@, mono.default_key, ids, fonts, word)
        }
}

/// Access to the fonts of a font database, with the caches that font
/// matching and fallback use.
pub struct FontSystem {
    /// The locale of the system.
    locale: String,
    /// The underlying font database.
    db: fontdb::Database,
    /// Sorted IDs of all monospace fonts in the database, unless
    /// `monospace_stale`.
    monospace_font_ids: Vec<FontId>,
    /// Whether the database may have changed since `monospace_font_ids`
    /// was computed; the database itself is then asked.
    monospace_stale: bool,
    /// Whether monospace fallback ranks candidates per word by coverage;
    /// otherwise one ranking serves every word.
    monospace_fallback: bool,
    /// Sorted unique IDs of the monospace fonts per script tag, when
    /// `monospace_fallback`.
    per_script_monospace_font_ids: HashMap<u32, Vec<FontId>>,
    /// Codepoint support caches, by font ID key.
    font_codepoint_support_info_cache: HashMap<u64, FontCachedCodepointSupportInfo>,
    /// Cache for font matches.
    font_matches_cache: Vec<(FontMatchAttrs, Arc<Vec<FontMatchKey>>)>,
    /// Cache for monospace font matches.
    monospace_font_matches_cache: Vec<(FontMatchAttrs, Arc<MonoFontMatches>)>,
    /// Cache for the per-word monospace fallback rankings.
    monospace_rankings_cache: Vec<(FontMatchAttrs, String, Arc<Vec<MonospaceFallbackInfo>>)>,
}

impl FontSystem {
    pub const FONT_MATCHES_CACHE_SIZE_LIMIT: usize = 256;

    /// The locale the system was made with.
    pub closed spec fn spec_locale(&self) -> Seq<char> {
        self.locale@
    }

    /// The recorded IDs of the monospace faces, sorted.
    pub closed spec fn spec_monospace_ids(&self) -> Seq<FontId> {
        self.monospace_font_ids@
    }

    /// Whether the recorded monospace IDs are those of the database as it
    /// is (false once the database was handed out for changes).
    pub closed spec fn spec_monospace_current(&self) -> bool {
        !self.monospace_stale
    }

    /// Whether monospace fallback ranks candidates per word by coverage.
    pub closed spec fn spec_monospace_fallback(&self) -> bool {
        self.monospace_fallback
    }

    /// The monospace face IDs recorded per script tag.
    pub closed spec fn spec_per_script_ids(&self) -> Map<u32, Vec<FontId>> {
        self.per_script_monospace_font_ids@
    }

    /// The codepoint support caches, by font ID key.
    pub closed spec fn spec_codepoint_caches(&self) -> Map<u64, FontCachedCodepointSupportInfo> {
        self.font_codepoint_support_info_cache@
    }

    /// The database the system holds.
    pub closed spec fn spec_db(&self) -> fontdb::Database {
        self.db
    }

    /// The faces of the database the system holds.
    pub open spec fn spec_faces(&self) -> Seq<FaceView> {
        database_contents(self.spec_db())
    }

    /// The generic family names of the database the system holds.
    pub open spec fn spec_generics(&self) -> (Seq<char>, Seq<char>, Seq<char>, Seq<char>, Seq<char>) {
        database_generic_families(self.spec_db())
    }

    /// The font match cache's entries, oldest first.
    pub closed spec fn spec_matches_cache(&self) -> Seq<(FontMatchAttrs, Arc<Vec<FontMatchKey>>)> {
        self.font_matches_cache@
    }

    /// The monospace match cache's entries, oldest first.
    pub closed spec fn spec_mono_cache(&self) -> Seq<(FontMatchAttrs, Arc<MonoFontMatches>)> {
        self.monospace_font_matches_cache@
    }

    /// Whether font matches for these attributes are cached (and the cache
    /// is not full, which would empty it first).
    pub open spec fn matches_cache_hit(&self, attrs: FontMatchAttrs) -> bool {
        &&& self.spec_matches_cache().len() < Self::FONT_MATCHES_CACHE_SIZE_LIMIT
        &&& exists|i: int| #[trigger] attrs_entry_is(self.spec_matches_cache(), i, attrs)
    }

    /// Whether monospace matches for these attributes are cached (and the
    /// cache is not full, which would empty it first).
    pub open spec fn mono_cache_hit(&self, attrs: FontMatchAttrs) -> bool {
        &&& self.spec_mono_cache().len() < Self::FONT_MATCHES_CACHE_SIZE_LIMIT
        &&& exists|i: int| #[trigger] attrs_entry_is(self.spec_mono_cache(), i, attrs)
    }

    /// The ranking cache's entries, oldest first.
    pub closed spec fn spec_rankings_cache(&self) -> Seq<
        (FontMatchAttrs, String, Arc<Vec<MonospaceFallbackInfo>>),
    > {
        self.monospace_rankings_cache@
    }

    /// How many entries each match cache holds.
    pub open spec fn spec_cache_sizes(&self) -> (nat, nat, nat) {
        (
            self.spec_matches_cache().len(),
            self.spec_mono_cache().len(),
            self.spec_rankings_cache().len(),
        )
    }

    /// `self` holds the same locale, database, monospace records and
    /// codepoint caches as `other`.
    pub open spec fn keeps_fonts_of(&self, other: Self) -> bool {
        &&& self.spec_locale() == other.spec_locale()
        &&& self.spec_db() == other.spec_db()
        &&& self.spec_monospace_ids() == other.spec_monospace_ids()
        &&& self.spec_monospace_current() == other.spec_monospace_current()
        &&& self.spec_monospace_fallback() == other.spec_monospace_fallback()
        &&& self.spec_per_script_ids() == other.spec_per_script_ids()
        &&& self.spec_codepoint_caches() == other.spec_codepoint_caches()
    }

    /// Every font match list cached was made with the weight-axis test
    /// `weight_axis_covers`.
    pub open spec fn matches_cache_made_with<F: Fn(FontId, u16) -> bool>(&self, weight_axis_covers: F) -> bool {
        forall|i: int|
            0 <= i < self.spec_matches_cache().len() ==> #[trigger] is_match_list_from(
                (*self.spec_matches_cache()[i].1)@,
                self.spec_matches_cache()[i].0,
                self.spec_faces(),
                self.spec_generics(),
                weight_axis_covers,
            )
    }

    /// Every monospace match data cached was drawn from a match list made
    /// with the weight-axis test `weight_axis_covers`.
    pub open spec fn mono_cache_made_with<F: Fn(FontId, u16) -> bool>(&self, weight_axis_covers: F) -> bool {
        forall|i: int|
            0 <= i < self.spec_mono_cache().len() ==> mono_drawn_with(
                *#[trigger] self.spec_mono_cache()[i].1,
                self.spec_mono_cache()[i].0,
                self.spec_faces(),
                self.spec_generics(),
                self.spec_monospace_fallback(),
                weight_axis_covers,
            )
    }

    /// The system's internal invariant.
    pub closed spec fn wf(&self) -> bool {
        let faces = database_contents(self.db);
        let generics = database_generic_families(self.db);
        &&& sorted_by_rank(self.monospace_font_ids@)
        &&& !self.monospace_stale ==> ids_well_written(faces)
        &&& !self.monospace_stale ==> self.monospace_font_ids@.to_multiset() == monospace_view_ids(
            faces,
        ).to_multiset()
        &&& forall|t: u32| #[trigger]
            self.per_script_monospace_font_ids@.contains_key(t) ==> strictly_sorted_ids(
                self.per_script_monospace_font_ids@[t]@,
            )
        &&& !self.monospace_fallback ==> self.per_script_monospace_font_ids@ == Map::<
            u32,
            Vec<FontId>,
        >::empty()
        &&& !self.monospace_stale ==> forall|t: u32, i: int|
            self.per_script_monospace_font_ids@.contains_key(t) && 0 <= i
                < self.per_script_monospace_font_ids@[t]@.len() ==> lists_monospace(
                faces,
                #[trigger] self.per_script_monospace_font_ids@[t]@[i].key,
            )
        &&& forall|k: u64| #[trigger]
            self.font_codepoint_support_info_cache@.contains_key(k)
                ==> self.font_codepoint_support_info_cache@[k].wf()
        &&& self.font_matches_cache@.len() <= Self::FONT_MATCHES_CACHE_SIZE_LIMIT
        &&& forall|i: int|
            0 <= i < self.font_matches_cache@.len() ==> is_some_match_list(
                (*#[trigger] self.font_matches_cache@[i].1)@,
                self.font_matches_cache@[i].0,
                faces,
                generics,
            )
        &&& self.monospace_font_matches_cache@.len() <= Self::FONT_MATCHES_CACHE_SIZE_LIMIT
        &&& forall|i: int|
            0 <= i < self.monospace_font_matches_cache@.len() ==> is_mono_matches(
                *#[trigger] self.monospace_font_matches_cache@[i].1,
                self.monospace_font_matches_cache@[i].0,
                faces,
                generics,
                self.monospace_fallback,
            )
        &&& self.monospace_rankings_cache@.len() <= Self::FONT_MATCHES_CACHE_SIZE_LIMIT
        &&& forall|i: int|
            0 <= i < self.monospace_rankings_cache@.len() ==> sorted_by_rank(
                (*#[trigger] self.monospace_rankings_cache@[i].2)@,
            )
    }

    /// Create a new [`FontSystem`] with a pre-specified locale and font
    /// database, which ranks monospace candidates the same way for every
    /// word. The IDs of the database's monospace faces are recorded, sorted.
    pub fn new_with_locale_and_db(locale: String, db: fontdb::Database) -> (r: Self)
        ensures
            r.wf(),
            r.spec_locale() == locale@,
            r.spec_db() == db,
            !r.spec_monospace_fallback(),
            r.spec_monospace_current(),
            sorted_by_rank(r.spec_monospace_ids()),
            r.spec_monospace_ids().to_multiset() == monospace_view_ids(
                database_contents(db),
            ).to_multiset(),
            r.spec_per_script_ids() == Map::<u32, Vec<FontId>>::empty(),
            r.spec_codepoint_caches() == Map::<u64, FontCachedCodepointSupportInfo>::empty(),
            r.spec_cache_sizes() == (0nat, 0nat, 0nat),
    {
        Self::new_with_locale_and_db_and_monospace_fallback(locale, db, false)
    }

    /// Create a new [`FontSystem`] with a pre-specified locale and font
    /// database. With `monospace_fallback`, monospace candidates are ranked
    /// per word by how much of it their fonts cover (see
    /// [`Self::get_monospace_ranking`]), and the monospace faces are
    /// recorded per OpenType script their fonts have GPOS and GSUB script
    /// records for; without it one ranking serves every word. The IDs of
    /// the database's monospace faces are recorded, sorted.
    pub fn new_with_locale_and_db_and_monospace_fallback(
        locale: String,
        db: fontdb::Database,
        monospace_fallback: bool,
    ) -> (r: Self)
        ensures
            r.wf(),
            r.spec_locale() == locale@,
            r.spec_db() == db,
            r.spec_monospace_fallback() == monospace_fallback,
            r.spec_monospace_current(),
            sorted_by_rank(r.spec_monospace_ids()),
            r.spec_monospace_ids().to_multiset() == monospace_view_ids(
                database_contents(db),
            ).to_multiset(),
            !monospace_fallback ==> r.spec_per_script_ids() == Map::<u32, Vec<FontId>>::empty(),
            monospace_fallback ==> exists|tag_lists: Seq<Vec<[u8; 4]>>|
                tag_lists.len() == monospace_view_ids(database_contents(db)).len()
                    && #[trigger] is_script_table(
                    r.spec_per_script_ids(),
                    monospace_view_ids(database_contents(db)),
                    tag_lists,
                ),
            r.spec_codepoint_caches() == Map::<u64, FontCachedCodepointSupportInfo>::empty(),
            r.spec_cache_sizes() == (0nat, 0nat, 0nat),
    {
        let monospace_font_ids = monospace_ids_in(&db);
        let per_script_monospace_font_ids = if monospace_fallback {
            script_faces(&db)
        } else {
            HashMap::new()
        };
        let ghost table = per_script_monospace_font_ids@;
        let r = FontSystem {
            locale,
            db,
            monospace_font_ids,
            monospace_stale: false,
            monospace_fallback,
            per_script_monospace_font_ids,
            font_codepoint_support_info_cache: HashMap::new(),
            font_matches_cache: Vec::new(),
            monospace_font_matches_cache: Vec::new(),
            monospace_rankings_cache: Vec::new(),
        };
        proof {
            if monospace_fallback {
                let tl = choose|tag_lists: Seq<Vec<[u8; 4]>>|
                    tag_lists.len() == monospace_view_ids(database_contents(r.db)).len()
                        && #[trigger] is_script_table(
                        table,
                        monospace_view_ids(database_contents(r.db)),
                        tag_lists,
                    );
                assert(is_script_table(
                    r.spec_per_script_ids(),
                    monospace_view_ids(database_contents(r.db)),
                    tl,
                ));
            }
        }
        r
    }

    /// Sets the default generic families ("Noto Sans Mono" for monospace,
    /// "Open Sans" for sans-serif, "DejaVu Serif" for serif) on a loaded
    /// database and builds the system from it.
    pub fn finish_with_db(mut db: fontdb::Database, locale: String) -> (r: Self)
        ensures
            r.wf(),
            r.spec_locale() == locale@,
            r.spec_faces() == database_contents(db),
            r.spec_generics() == ({
                let g = database_generic_families(db);
                ("DejaVu Serif"@, "Open Sans"@, g.2, g.3, "Noto Sans Mono"@)
            }),
            !r.spec_monospace_fallback(),
            r.spec_monospace_current(),
            sorted_by_rank(r.spec_monospace_ids()),
            r.spec_monospace_ids().to_multiset() == monospace_view_ids(
                database_contents(db),
            ).to_multiset(),
            r.spec_per_script_ids() == Map::<u32, Vec<FontId>>::empty(),
            r.spec_cache_sizes() == (0nat, 0nat, 0nat),
    {
        set_monospace_family(&mut db, "Noto Sans Mono");
        set_sans_serif_family(&mut db, "Open Sans");
        set_serif_family(&mut db, "DejaVu Serif");
        Self::new_with_locale_and_db(locale, db)
    }

    /// Get the locale.
    pub fn locale(&self) -> (r: &str)
        ensures
            r@ == self.spec_locale(),
    {
        self.locale.as_str()
    }

    /// Get the database.
    pub fn db(&self) -> (r: &fontdb::Database)
        ensures
            *r == self.spec_db(),
    {
        &self.db
    }

    /// Get a mutable reference to the database. The match caches, which
    /// depend on the database, are emptied, and the database is asked
    /// which faces are monospace from then on.
    pub fn db_mut(&mut self) -> (r: &mut fontdb::Database)
        requires
            old(self).wf(),
        ensures
            *r == old(self).spec_db(),
            final(self).spec_db() == *final(r),
            final(self).wf(),
            !final(self).spec_monospace_current(),
            final(self).spec_monospace_fallback() == old(self).spec_monospace_fallback(),
            final(self).spec_cache_sizes() == (0nat, 0nat, 0nat),
            final(self).spec_locale() == old(self).spec_locale(),
            final(self).spec_per_script_ids() == old(self).spec_per_script_ids(),
            final(self).spec_codepoint_caches() == old(self).spec_codepoint_caches(),
    {
        self.font_matches_cache.clear();
        self.monospace_font_matches_cache.clear();
        self.monospace_rankings_cache.clear();
        self.monospace_stale = true;
        &mut self.db
    }

    /// Consume this [`FontSystem`] and return the locale and database.
    pub fn into_locale_and_db(self) -> (r: (String, fontdb::Database))
        ensures
            r.0@ == self.spec_locale(),
            r.1 == self.spec_db(),
    {
        (self.locale, self.db)
    }

    /// Whether the face is a monospace face of the database: marked
    /// monospaced, with no "Emoji" in its PostScript name.
    pub fn is_monospace(&self, id: FontId) -> (r: bool)
        requires
            self.wf(),
        ensures
            r == lists_monospace(self.spec_faces(), id.key),
    {
        if self.monospace_stale {
            db_lists_monospace(&self.db, id.key)
        } else {
            proof {
                crate::font::model::lemma_monospace_ids_has_key(
                    self.monospace_font_ids@,
                    database_contents(self.db),
                    id.key,
                );
            }
            contains_id(&self.monospace_font_ids, id.key)
        }
    }

    /// The faces `map` lists for any of the given script tags, sorted by
    /// ID, each once.
    fn ids_for_tags(map: &HashMap<u32, Vec<FontId>>, scripts: &[[u8; 4]]) -> (r: Vec<FontId>)
        requires
            forall|t: u32| #[trigger] map@.contains_key(t) ==> strictly_sorted_ids(map@[t]@),
        ensures
            strictly_sorted_ids(r@),
            forall|k: u64| has_key(r@, k) <==> scripts_list_key(map@, scripts@, k),
    {
        let mut ret: Vec<FontId> = Vec::new();
        let mut j: usize = 0;
        while j < scripts.len()
            invariant
                0 <= j <= scripts@.len(),
                forall|t: u32| #[trigger] map@.contains_key(t) ==> strictly_sorted_ids(map@[t]@),
                strictly_sorted_ids(ret@),
                forall|k: u64|
                    has_key(ret@, k) <==> scripts_list_key(
                        map@,
                        scripts@.take(j as int),
                        k,
                    ),
            decreases scripts@.len() - j,
        {
            let tag: u32 = tag_number(scripts[j]);
            let ghost before = ret@;
            let ghost m = map@;
            match map.get(&tag) {
                Some(ids) => {
                    let mut i: usize = 0;
                    while i < ids.len()
                        invariant
                            0 <= i <= ids@.len(),
                            strictly_sorted_ids(ret@),
                            forall|k: u64| #[trigger]
                                has_key(ret@, k) <==> (has_key(before, k) || has_key(
                                    ids@.take(i as int),
                                    k,
                                )),
                        decreases ids@.len() - i,
                    {
                        let ghost mid = ret@;
                        insert_id_sorted(&mut ret, ids[i]);
                        proof {
                            assert forall|k: u64|
                                has_key(ret@, k) <==> (has_key(before, k) || has_key(
                                    ids@.take(i + 1),
                                    k,
                                )) by {
                                lemma_has_key_take_succ(ids@, i as int, k);
                                assert(has_key(ret@, k) <==> (has_key(mid, k) || k == ids@[i as int].key));
                                assert(has_key(mid, k) <==> (has_key(before, k) || has_key(ids@.take(i as int), k)));
                            }
                        }
                        i = i + 1;
                    }
                    proof {
                        assert(ids@.take(ids@.len() as int) =~= ids@);
                        assert(m.contains_key(tag) && m[tag] == *ids);
                        assert forall|k: u64|
                            has_key(ret@, k) <==> (has_key(before, k) || (m.contains_key(tag)
                                && has_key(m[tag]@, k))) by {}
                    }
                },
                None => {
                    assert(!m.contains_key(tag));
                    assert forall|k: u64|
                        has_key(ret@, k) <==> (has_key(before, k) || (m.contains_key(tag)
                            && has_key(m[tag]@, k))) by {}
                },
            }
            proof {
                assert forall|k: u64|
                    has_key(ret@, k) <==> scripts_list_key(m, scripts@.take(j + 1), k) by {
                    lemma_scripts_list_key_take_succ(m, scripts@, j as int, k);
                }
            }
            j = j + 1;
        }
        assert(scripts@.take(scripts@.len() as int) =~= scripts@);
        ret
    }

    /// Records the monospace faces of the database anew, if it was handed
    /// out for changes since they were recorded.
    fn refresh_monospace(&mut self)
        requires
            old(self).wf(),
        ensures
            final(self).wf(),
            final(self).spec_monospace_current(),
            old(self).spec_monospace_current() ==> final(self).spec_monospace_ids() == old(
                self,
            ).spec_monospace_ids() && final(self).spec_per_script_ids() == old(
                self,
            ).spec_per_script_ids(),
            final(self).spec_locale() == old(self).spec_locale(),
            final(self).spec_db() == old(self).spec_db(),
            final(self).spec_monospace_fallback() == old(self).spec_monospace_fallback(),
            final(self).spec_codepoint_caches() == old(self).spec_codepoint_caches(),
            final(self).spec_matches_cache() == old(self).spec_matches_cache(),
            final(self).spec_mono_cache() == old(self).spec_mono_cache(),
            final(self).spec_rankings_cache() == old(self).spec_rankings_cache(),
            final(self).spec_cache_sizes() == old(self).spec_cache_sizes(),
    {
        if self.monospace_stale {
            self.monospace_font_ids = monospace_ids_in(&self.db);
            if self.monospace_fallback {
                self.per_script_monospace_font_ids = script_faces(&self.db);
            }
            self.monospace_stale = false;
        }
    }

    /// While the monospace records are current, the database's faces are
    /// known to have pairwise different, well-written IDs (as every
    /// database's faces do).
    pub proof fn lemma_current_faces_well_written(&self)
        requires
            self.wf(),
            self.spec_monospace_current(),
        ensures
            ids_well_written(self.spec_faces()),
    {
    }

    /// The monospace faces recorded for any of the given script tags,
    /// sorted by ID, each once. Once the database was handed out for
    /// changes, the faces are recorded anew from it first.
    pub fn get_monospace_ids_for_scripts(&self, scripts: &[[u8; 4]]) -> (r: Vec<FontId>)
        requires
            self.wf(),
        ensures
            strictly_sorted_ids(r@),
            self.spec_monospace_current() ==> forall|k: u64|
                has_key(r@, k) <==> scripts_list_key(self.spec_per_script_ids(), scripts@, k),
            forall|k: u64| has_key(r@, k) ==> lists_monospace(self.spec_faces(), k),
    {
        if self.monospace_stale && self.monospace_fallback {
            let fresh = script_faces(&self.db);
            let r = Self::ids_for_tags(&fresh, scripts);
            proof {
                assert forall|k: u64| has_key(r@, k) implies lists_monospace(self.spec_faces(), k) by {
                    let j = choose|j: int|
                        0 <= j < scripts@.len() && fresh@.contains_key(
                            spec_tag_number(#[trigger] scripts@[j]),
                        ) && has_key(fresh@[spec_tag_number(scripts@[j])]@, k);
                    let t = spec_tag_number(scripts@[j]);
                    let i = choose|i: int| 0 <= i < fresh@[t]@.len() && #[trigger] fresh@[t]@[i].key == k;
                    assert(lists_monospace(database_contents(self.db), fresh@[t]@[i].key));
                }
            }
            r
        } else {
            let r = Self::ids_for_tags(&self.per_script_monospace_font_ids, scripts);
            proof {
                assert forall|k: u64| has_key(r@, k) implies lists_monospace(self.spec_faces(), k) by {
                    let map = self.per_script_monospace_font_ids@;
                    let j = choose|j: int|
                        0 <= j < scripts@.len() && map.contains_key(
                            spec_tag_number(#[trigger] scripts@[j]),
                        ) && has_key(map[spec_tag_number(scripts@[j])]@, k);
                    let t = spec_tag_number(scripts@[j]);
                    let i = choose|i: int| 0 <= i < map[t]@.len() && #[trigger] map[t]@[i].key == k;
                    assert(lists_monospace(database_contents(self.db), map[t]@[i].key));
                }
            }
            r
        }
    }

    /// The codepoint support cache of the face with key `k` agrees with
    /// `cps`, or there is none yet.
    pub open spec fn codepoint_cache_agrees(&self, k: u64, cps: Seq<u32>) -> bool {
        self.spec_codepoint_caches().contains_key(k) ==> self.spec_codepoint_caches()[k].agrees_with(
            cps,
        )
    }

    /// How many characters of `word` the face `id` supports, given the
    /// codepoints of that face's loaded font (`None` when the font could not
    /// be loaded). The answers go through the face's codepoint support
    /// cache, which is created on first use.
    pub fn get_font_supported_codepoints_in_word(
        &mut self,
        id: FontId,
        font_codepoints: Option<&[u32]>,
        word: &str,
    ) -> (r: Option<usize>)
        requires
            old(self).wf(),
            word@.len() <= usize::MAX,
        ensures
            final(self).wf(),
            r is Some <==> font_codepoints is Some,
            r matches Some(n) ==> n <= word@.len(),
            font_codepoints matches Some(cps) ==> (old(self).codepoint_cache_agrees(id.key, cps@) ==> {
                &&& r == Some(supported_count(word@, cps@) as usize)
                &&& final(self).codepoint_cache_agrees(id.key, cps@)
            }),
            font_codepoints is None ==> final(self).spec_codepoint_caches()
                == old(self).spec_codepoint_caches(),
            forall|k: u64|
                k != id.key ==> #[trigger] final(self).spec_codepoint_caches().contains_key(k)
                    == old(self).spec_codepoint_caches().contains_key(k) && (old(
                    self,
                ).spec_codepoint_caches().contains_key(k) ==> final(self).spec_codepoint_caches()[k]
                    == old(self).spec_codepoint_caches()[k]),
            final(self).spec_locale() == old(self).spec_locale(),
            final(self).spec_db() == old(self).spec_db(),
            final(self).spec_monospace_ids() == old(self).spec_monospace_ids(),
            final(self).spec_per_script_ids() == old(self).spec_per_script_ids(),
            final(self).spec_monospace_current() == old(self).spec_monospace_current(),
            final(self).spec_monospace_fallback() == old(self).spec_monospace_fallback(),
            final(self).spec_rankings_cache() == old(self).spec_rankings_cache(),
            final(self).spec_cache_sizes() == old(self).spec_cache_sizes(),
            final(self).spec_matches_cache() == old(self).spec_matches_cache(),
            final(self).spec_mono_cache() == old(self).spec_mono_cache(),
    {
        let code_points = match font_codepoints {
            Some(cps) => cps,
            None => {
                return None;
            },
        };
        let ghost agrees = self.codepoint_cache_agrees(id.key, code_points@);
        let mut cache = match self.font_codepoint_support_info_cache.remove(&id.key) {
            Some(c) => c,
            None => FontCachedCodepointSupportInfo::new(),
        };
        assert(cache.wf());
        assert(agrees ==> cache.agrees_with(code_points@));
        let ghost text = word@;
        let mut count: usize = 0;
        for ch in it: word.chars()
            invariant
                it.seq() == text,
                text.len() <= usize::MAX,
                cache.wf(),
                agrees ==> cache.agrees_with(code_points@),
                agrees ==> count == supported_count(text.take(it.index()), code_points@),
                count <= it.index(),
        {
            proof {
                assert(text.take(it.index() + 1).drop_last() =~= text.take(it.index()));
            }
            if cache.has_codepoint(code_points, ch as u32) {
                count = count + 1;
            }
        }
        proof {
            assert(text.take(text.len() as int) =~= text);
        }
        self.font_codepoint_support_info_cache.insert(id.key, cache);
        Some(count)
    }

    /// The match keys of all faces for `attrs`, without the cache.
    fn compute_font_matches<F: Fn(FontId, u16) -> bool>(
        &self,
        attrs: &FontMatchAttrs,
        weight_axis_covers: &F,
    ) -> (r: Vec<FontMatchKey>)
        requires
            forall|id: FontId, w: u16| weight_axis_covers.requires((id, w)),
        ensures
            exists|covers: Seq<bool>|
                #[trigger] axis_answers_from(*attrs, self.spec_faces(), covers, *weight_axis_covers)
                    && is_match_list(r@, *attrs, self.spec_faces(), self.spec_generics(), covers),
    {
        broadcast use vstd::seq_lib::group_to_multiset_ensures;

        let recs = faces_of(&self.db);
        let ghost faces = database_contents(self.db);
        let mut keys: Vec<FontMatchKey> = Vec::new();
        let ghost mut covers: Seq<bool> = Seq::empty();
        let mut i: usize = 0;
        while i < recs.len()
            invariant
                0 <= i <= recs@.len(),
                recs@.len() == faces.len(),
                faces == database_contents(self.db),
                forall|j: int| 0 <= j < recs@.len() ==> record_view(#[trigger] recs@[j]) == faces[j],
                ids_well_written(faces),
                forall|id: FontId, w: u16| weight_axis_covers.requires((id, w)),
                keys@.len() == i,
                covers.len() == i,
                forall|j: int|
                    0 <= j < i ==> #[trigger] keys@[j] == view_match_key(*attrs, faces[j], covers[j]),
                forall|j: int|
                    0 <= j < i && spec_abs_diff(attrs.weight, #[trigger] faces[j].4) == 0 ==> !covers[j],
                forall|j: int|
                    0 <= j < i && spec_abs_diff(attrs.weight, #[trigger] faces[j].4) != 0
                        ==> weight_axis_covers.ensures(
                        (FontId { key: view_key(faces[j]) }, attrs.weight),
                        covers[j],
                    ),
            decreases recs@.len() - i,
        {
            proof {
                assert(record_view(recs@[i as int]) == faces[i as int]);
                lemma_view_key_parses(faces, i as int);
            }
            if let Some(summary) = summarize_record(&recs[i]) {
                assert(summary.id == FontId { key: view_key(faces[i as int]) });
                // Variable weight axes only matter where the weight differs.
                let covers_weight = if abs_diff(attrs.weight, summary.weight) != 0 {
                    weight_axis_covers(summary.id, attrs.weight)
                } else {
                    false
                };
                let key = FontMatchKey::new(attrs, &summary, covers_weight);
                assert(key == view_match_key(*attrs, faces[i as int], covers_weight));
                keys.push(key);
                proof {
                    covers = covers.push(covers_weight);
                }
            }
            i = i + 1;
        }
        let ghost all = face_keys(*attrs, faces, covers);
        assert(keys@ =~= all);
        assert(axis_answers_from(*attrs, faces, covers, *weight_axis_covers));
        // Sort so we get the keys with weight_offset=0 first
        let mut sorted = sort_by_rank(&keys);
        let ghost sorted0 = sorted@;
        // The database's own query is better than the sort, but returns just one face:
        // that one goes to the front.
        let picked = query_database(
            &self.db,
            &attrs.family,
            attrs.weight,
            attrs.stretch,
            attrs.style,
        );
        let ghost generics = database_generic_families(self.db);
        let ghost best = database_best_face(
            faces,
            resolve_family(family_view(&attrs.family), generics),
            attrs.weight,
            attrs.stretch.spec_number(),
            attrs.style,
        );
        assert(sorted0.to_multiset() == all.to_multiset());
        match picked {
            Some(text) => {
                let ghost q = best->0;
                proof {
                    lemma_view_key_parses(faces, q);
                }
                if let Some(qid) = FontId::from_text(text.as_str()) {
                    assert(qid.key == view_key(faces[q]));
                    proof {
                        assert(all[q].id.key == qid.key);
                        assert(all.to_multiset().count(all[q]) > 0);
                        assert(sorted0.contains(all[q]));
                        let i0 = choose|i0: int| 0 <= i0 < sorted0.len() && sorted0[i0] == all[q];
                        assert(sorted0[i0].id.key == qid.key);
                    }
                    let found = promote_key(&mut sorted, qid.key);
                    proof {
                        let w = choose|w: int|
                            first_with_id(sorted0, qid.key, w) && sorted@ == seq![sorted0[w]]
                                + sorted0.remove(w);
                        assert(sorted0.contains(sorted0[w]));
                        assert(sorted0.to_multiset().count(sorted0[w]) > 0);
                        assert(all.contains(sorted0[w]));
                        let j = choose|j: int| 0 <= j < all.len() && all[j] == sorted0[w];
                        if j != q {
                            lemma_view_keys_differ(faces, j, q);
                        }
                        assert(sorted0[w] == all[q]);
                        assert(sorted@.drop_first() =~= sorted0.remove(w));
                        crate::font::order::lemma_sorted_remove(sorted0, w);
                        vstd::seq_lib::to_multiset_remove(sorted0, w);
                        assert(is_match_list(sorted@, *attrs, faces, generics, covers));
                    }
                }
            },
            None => {
                assert(is_match_list(sorted@, *attrs, faces, generics, covers));
            },
        }
        assert(is_match_list(sorted@, *attrs, faces, generics, covers));
        assert(faces == self.spec_faces());
        assert(generics == self.spec_generics());
        sorted
    }

    /// The match keys of all faces for `attrs`: one per face, sorted best
    /// first, except that the face the database's own query picks (if any)
    /// comes first. `weight_axis_covers(id, w)` tells whether face `id` has
    /// a variable weight axis whose range holds `w`; it is asked only about
    /// faces whose weight differs from the requested one. Results are
    /// cached per set of attributes; the cache is emptied when it is full.
    pub fn get_font_matches<F: Fn(FontId, u16) -> bool>(
        &mut self,
        attrs: &FontMatchAttrs,
        weight_axis_covers: &F,
    ) -> (r: Arc<Vec<FontMatchKey>>)
        requires
            old(self).wf(),
            forall|id: FontId, w: u16| weight_axis_covers.requires((id, w)),
        ensures
            final(self).wf(),
            is_some_match_list((*r)@, *attrs, final(self).spec_faces(), final(self).spec_generics()),
            !old(self).matches_cache_hit(*attrs) ==> exists|covers: Seq<bool>|
                #[trigger] axis_answers_from(*attrs, old(self).spec_faces(), covers, *weight_axis_covers)
                    && is_match_list(
                    (*r)@,
                    *attrs,
                    old(self).spec_faces(),
                    old(self).spec_generics(),
                    covers,
                ),
            old(self).matches_cache_hit(*attrs) ==> *r == *first_attrs_entry(
                old(self).spec_matches_cache(),
                *attrs,
            ),
            final(self).spec_matches_cache().len() < Self::FONT_MATCHES_CACHE_SIZE_LIMIT
                ==> final(self).matches_cache_hit(*attrs)
                && *first_attrs_entry(final(self).spec_matches_cache(), *attrs) == *r,
            old(self).matches_cache_made_with(*weight_axis_covers)
                ==> final(self).matches_cache_made_with(*weight_axis_covers) && exists|covers: Seq<bool>|
                #[trigger] axis_answers_from(*attrs, old(self).spec_faces(), covers, *weight_axis_covers)
                    && is_match_list(
                    (*r)@,
                    *attrs,
                    old(self).spec_faces(),
                    old(self).spec_generics(),
                    covers,
                ),
            final(self).keeps_fonts_of(*old(self)),
            final(self).spec_mono_cache() == old(self).spec_mono_cache(),
            final(self).spec_rankings_cache() == old(self).spec_rankings_cache(),
            final(self).spec_cache_sizes().1 == old(self).spec_cache_sizes().1,
            final(self).spec_cache_sizes().2 == old(self).spec_cache_sizes().2,
    {
        let ghost full = self.font_matches_cache@.len() >= Self::FONT_MATCHES_CACHE_SIZE_LIMIT;
        // Clear the cache first if it reached the size limit
        if self.font_matches_cache.len() >= Self::FONT_MATCHES_CACHE_SIZE_LIMIT {
            self.font_matches_cache.clear();
        }
        let mut c: usize = 0;
        while c < self.font_matches_cache.len()
            invariant
                self.wf(),
                0 <= c <= self.font_matches_cache@.len(),
                full == (old(self).font_matches_cache@.len() >= Self::FONT_MATCHES_CACHE_SIZE_LIMIT),
                full ==> self.font_matches_cache@.len() == 0,
                !full ==> self.font_matches_cache@ == old(self).font_matches_cache@,
                self.spec_mono_cache() == old(self).spec_mono_cache(),
                self.spec_rankings_cache() == old(self).spec_rankings_cache(),
                forall|j: int|
                    0 <= j < c ==> !#[trigger] attrs_entry_is(self.font_matches_cache@, j, *attrs),
                self.keeps_fonts_of(*old(self)),
                old(self).matches_cache_made_with(*weight_axis_covers) ==> self.matches_cache_made_with(
                    *weight_axis_covers,
                ),
                self.spec_cache_sizes().1 == old(self).spec_cache_sizes().1,
                self.spec_cache_sizes().2 == old(self).spec_cache_sizes().2,
            decreases self.font_matches_cache@.len() - c,
        {
            if self.font_matches_cache[c].0.same(attrs) {
                proof {
                    lemma_match_list_same_attrs(
                        (*self.font_matches_cache@[c as int].1)@,
                        &self.font_matches_cache@[c as int].0,
                        attrs,
                        database_contents(self.db),
                        database_generic_families(self.db),
                    );
                    assert(attrs_entry_is(self.font_matches_cache@, c as int, *attrs));
                    lemma_first_attrs_entry(self.font_matches_cache@, c as int, *attrs);
                    if old(self).matches_cache_made_with(*weight_axis_covers) {
                        let e = self.spec_matches_cache()[c as int];
                        assert(is_match_list_from(
                            (*e.1)@,
                            e.0,
                            self.spec_faces(),
                            self.spec_generics(),
                            *weight_axis_covers,
                        ));
                        let covers = choose|covers: Seq<bool>|
                            #[trigger] axis_answers_from(
                                e.0,
                                self.spec_faces(),
                                covers,
                                *weight_axis_covers,
                            ) && is_match_list(
                                (*e.1)@,
                                e.0,
                                self.spec_faces(),
                                self.spec_generics(),
                                covers,
                            );
                        lemma_match_list_from_same_attrs(
                            (*e.1)@,
                            &e.0,
                            attrs,
                            self.spec_faces(),
                            self.spec_generics(),
                            covers,
                            *weight_axis_covers,
                        );
                        assert(old(self).spec_faces() == self.spec_faces());
                        assert(old(self).spec_generics() == self.spec_generics());
                        assert(axis_answers_from(*attrs, old(self).spec_faces(), covers, *weight_axis_covers));
                    }
                }
                return share(&self.font_matches_cache[c].1);
            }
            c = c + 1;
        }
        assert(!old(self).matches_cache_hit(*attrs)) by {
            if !full && old(self).matches_cache_hit(*attrs) {
                let i = choose|i: int| #[trigger]
                    attrs_entry_is(old(self).font_matches_cache@, i, *attrs);
                assert(!attrs_entry_is(self.font_matches_cache@, i, *attrs));
            }
        }
        let ghost before_push = self.font_matches_cache@;
        let ghost made_with = self.matches_cache_made_with(*weight_axis_covers);
        let ghost pre = *self;
        let keys = self.compute_font_matches(attrs, weight_axis_covers);
        let matches = Arc::new(keys);
        let key = attrs.duplicate();
        let ghost covers = choose|covers: Seq<bool>|
            #[trigger] axis_answers_from(*attrs, self.spec_faces(), covers, *weight_axis_covers)
                && is_match_list((*matches)@, *attrs, self.spec_faces(), self.spec_generics(), covers);
        proof {
            assert(axis_answers_fit(*attrs, self.spec_faces(), covers));
            lemma_match_list_same_attrs(
                (*matches)@,
                attrs,
                &key,
                database_contents(self.db),
                database_generic_families(self.db),
            );
            lemma_match_list_from_same_attrs(
                (*matches)@,
                attrs,
                &key,
                self.spec_faces(),
                self.spec_generics(),
                covers,
                *weight_axis_covers,
            );
        }
        self.font_matches_cache.push((key, share(&matches)));
        proof {
            let n = before_push.len() as int;
            assert(attrs_entry_is(self.font_matches_cache@, n, *attrs));
            assert forall|j: int| 0 <= j < n implies !#[trigger] attrs_entry_is(
                self.font_matches_cache@,
                j,
                *attrs,
            ) by {
                assert(self.font_matches_cache@[j] == before_push[j]);
                assert(!attrs_entry_is(before_push, j, *attrs));
            }
            lemma_first_attrs_entry(self.font_matches_cache@, n, *attrs);
            if made_with {
                assert forall|i: int| 0 <= i < self.spec_matches_cache().len() implies #[trigger] is_match_list_from(
                    (*self.spec_matches_cache()[i].1)@,
                    self.spec_matches_cache()[i].0,
                    self.spec_faces(),
                    self.spec_generics(),
                    *weight_axis_covers,
                ) by {
                    if i < n {
                        assert(self.spec_matches_cache()[i] == pre.spec_matches_cache()[i]);
                        assert(pre.spec_faces() == self.spec_faces());
                        assert(pre.spec_generics() == self.spec_generics());
                    } else {
                        assert(self.spec_matches_cache()[i].0 == key);
                        assert(axis_answers_from(key, self.spec_faces(), covers, *weight_axis_covers));
                    }
                }
            }
        }
        assert(old(self).matches_cache_made_with(*weight_axis_covers) ==> made_with);
        assert(made_with ==> self.matches_cache_made_with(*weight_axis_covers));
        assert(is_match_list((*matches)@, *attrs, old(self).spec_faces(), old(self).spec_generics(), covers));
        assert(old(self).spec_faces() == self.spec_faces());
        assert(axis_answers_from(*attrs, old(self).spec_faces(), covers, *weight_axis_covers));
        matches
    }

    /// Whether the face with the given ID lists the given family name.
    pub fn face_contains_family(&self, id: FontId, family_name: &str) -> (r: bool)
        ensures
            r == face_lists_family(self.spec_faces(), id.key, family_name@),
    {
        let recs = faces_of(&self.db);
        let ghost faces = database_contents(self.db);
        let mut i: usize = 0;
        while i < recs.len()
            invariant
                0 <= i <= recs@.len(),
                recs@.len() == faces.len(),
                faces == database_contents(self.db),
                forall|j: int| 0 <= j < recs@.len() ==> record_view(#[trigger] recs@[j]) == faces[j],
                ids_well_written(faces),
                forall|j: int|
                    0 <= j < i ==> !(#[trigger] view_key(faces[j]) == id.key && lists_family(
                        faces[j].2,
                        family_name@,
                    )),
            decreases recs@.len() - i,
        {
            proof {
                assert(record_view(recs@[i as int]) == faces[i as int]);
                lemma_view_key_parses(faces, i as int);
            }
            if let Some(face_id) = FontId::from_text(recs[i].id_text.as_str()) {
                if face_id.key == id.key && names_contain(&recs[i].families, family_name) {
                    assert(view_key(faces[i as int]) == id.key && lists_family(
                        faces[i as int].2,
                        family_name@,
                    ));
                    return true;
                }
            }
            i = i + 1;
        }
        false
    }

    /// The monospace match data for `attrs`, drawn from the font matches
    /// for `attrs` (see [`Self::get_font_matches`]): the match keys of the
    /// monospace faces, in match order; the first key, in match order,
    /// whose weight matches (exactly, or by a variable weight axis) and
    /// whose face lists the requested family (a generic family by the name
    /// the database resolves it to); and the candidates ranked the same way
    /// for every word. Results are cached per set of attributes; the cache
    /// is emptied when it is full.
    pub fn get_monospace_font_matches<F: Fn(FontId, u16) -> bool>(
        &mut self,
        attrs: &FontMatchAttrs,
        weight_axis_covers: &F,
    ) -> (r: Arc<MonoFontMatches>)
        requires
            old(self).wf(),
            forall|id: FontId, w: u16| weight_axis_covers.requires((id, w)),
        ensures
            final(self).wf(),
            is_mono_matches(
                *r,
                *attrs,
                final(self).spec_faces(),
                final(self).spec_generics(),
                final(self).spec_monospace_fallback(),
            ),
            !old(self).mono_cache_hit(*attrs) ==> exists|l: Seq<FontMatchKey>|
                {
                    &&& #[trigger] mono_matches_from(
                        *r,
                        l,
                        old(self).spec_faces(),
                        resolve_family(family_view(&attrs.family), old(self).spec_generics()),
                        old(self).spec_monospace_fallback(),
                    )
                    &&& old(self).matches_cache_hit(*attrs) ==> l == (*first_attrs_entry(
                        old(self).spec_matches_cache(),
                        *attrs,
                    ))@
                    &&& !old(self).matches_cache_hit(*attrs) ==> exists|covers: Seq<bool>|
                        #[trigger] axis_answers_from(
                            *attrs,
                            old(self).spec_faces(),
                            covers,
                            *weight_axis_covers,
                        ) && is_match_list(
                            l,
                            *attrs,
                            old(self).spec_faces(),
                            old(self).spec_generics(),
                            covers,
                        )
                },
            old(self).mono_cache_hit(*attrs) ==> *r == *first_attrs_entry(
                old(self).spec_mono_cache(),
                *attrs,
            ),
            final(self).spec_mono_cache().len() < Self::FONT_MATCHES_CACHE_SIZE_LIMIT
                ==> final(self).mono_cache_hit(*attrs)
                && *first_attrs_entry(final(self).spec_mono_cache(), *attrs) == *r,
            old(self).matches_cache_made_with(*weight_axis_covers) && old(
                self,
            ).mono_cache_made_with(*weight_axis_covers) ==> {
                &&& final(self).matches_cache_made_with(*weight_axis_covers)
                &&& final(self).mono_cache_made_with(*weight_axis_covers)
                &&& mono_drawn_with(
                    *r,
                    *attrs,
                    old(self).spec_faces(),
                    old(self).spec_generics(),
                    old(self).spec_monospace_fallback(),
                    *weight_axis_covers,
                )
            },
            final(self).keeps_fonts_of(*old(self)),
            final(self).spec_cache_sizes().2 == old(self).spec_cache_sizes().2,
            final(self).spec_rankings_cache() == old(self).spec_rankings_cache(),
    {
        let ghost full = self.monospace_font_matches_cache@.len()
            >= Self::FONT_MATCHES_CACHE_SIZE_LIMIT;
        // Clear the cache first if it reached the size limit
        if self.monospace_font_matches_cache.len() >= Self::FONT_MATCHES_CACHE_SIZE_LIMIT {
            self.monospace_font_matches_cache.clear();
        }
        let mut c: usize = 0;
        while c < self.monospace_font_matches_cache.len()
            invariant
                self.wf(),
                full == (old(self).monospace_font_matches_cache@.len()
                    >= Self::FONT_MATCHES_CACHE_SIZE_LIMIT),
                full ==> self.monospace_font_matches_cache@.len() == 0,
                !full ==> self.monospace_font_matches_cache@ == old(self).monospace_font_matches_cache@,
                self.spec_rankings_cache() == old(self).spec_rankings_cache(),
                self.spec_matches_cache() == old(self).spec_matches_cache(),
                forall|j: int|
                    0 <= j < c ==> !#[trigger] attrs_entry_is(
                        self.monospace_font_matches_cache@,
                        j,
                        *attrs,
                    ),
                0 <= c <= self.monospace_font_matches_cache@.len(),
                self.keeps_fonts_of(*old(self)),
                old(self).mono_cache_made_with(*weight_axis_covers) ==> self.mono_cache_made_with(
                    *weight_axis_covers,
                ),
                self.spec_cache_sizes().2 == old(self).spec_cache_sizes().2,
            decreases self.monospace_font_matches_cache@.len() - c,
        {
            if self.monospace_font_matches_cache[c].0.same(attrs) {
                proof {
                    lemma_mono_matches_same_attrs(
                        &*self.monospace_font_matches_cache@[c as int].1,
                        &self.monospace_font_matches_cache@[c as int].0,
                        attrs,
                        database_contents(self.db),
                        database_generic_families(self.db),
                        self.monospace_fallback,
                    );
                    assert(attrs_entry_is(self.monospace_font_matches_cache@, c as int, *attrs));
                    lemma_first_attrs_entry(self.monospace_font_matches_cache@, c as int, *attrs);
                    if old(self).mono_cache_made_with(*weight_axis_covers) {
                        let e = self.spec_mono_cache()[c as int];
                        assert(mono_drawn_with(
                            *e.1,
                            e.0,
                            self.spec_faces(),
                            self.spec_generics(),
                            self.spec_monospace_fallback(),
                            *weight_axis_covers,
                        ));
                        lemma_mono_drawn_with_same_attrs(
                            &*e.1,
                            &e.0,
                            attrs,
                            self.spec_faces(),
                            self.spec_generics(),
                            self.spec_monospace_fallback(),
                            *weight_axis_covers,
                        );
                        assert(old(self).spec_faces() == self.spec_faces());
                        assert(old(self).spec_generics() == self.spec_generics());
                    }
                }
                return share(&self.monospace_font_matches_cache[c].1);
            }
            c = c + 1;
        }
        assert(!old(self).mono_cache_hit(*attrs)) by {
            if !full && old(self).mono_cache_hit(*attrs) {
                let i = choose|i: int| #[trigger]
                    attrs_entry_is(old(self).monospace_font_matches_cache@, i, *attrs);
                assert(!attrs_entry_is(self.monospace_font_matches_cache@, i, *attrs));
            }
        }
        let ghost after_loop = self.monospace_font_matches_cache@;
        let ghost mono_made = self.mono_cache_made_with(*weight_axis_covers);
        proof {
            assert(self.spec_faces() == old(self).spec_faces());
            assert(self.spec_generics() == old(self).spec_generics());
            assert(old(self).matches_cache_made_with(*weight_axis_covers) ==> self.matches_cache_made_with(
                *weight_axis_covers,
            ));
        }
        let ghost before_call = *self;
        let font_match_keys = self.get_font_matches(attrs, weight_axis_covers);
        let matches = self.select_monospace_matches(attrs, &font_match_keys);
        let matches = Arc::new(matches);
        let key = attrs.duplicate();
        let ghost pre = *self;
        proof {
            if old(self).matches_cache_made_with(*weight_axis_covers) {
                let fm = (*font_match_keys)@;
                assert(before_call.matches_cache_made_with(*weight_axis_covers));
                assert(before_call.spec_faces() == self.spec_faces());
                let cv = choose|covers: Seq<bool>|
                    #[trigger] axis_answers_from(*attrs, before_call.spec_faces(), covers, *weight_axis_covers)
                        && is_match_list(fm, *attrs, before_call.spec_faces(), before_call.spec_generics(), covers);
                assert(axis_answers_from(*attrs, self.spec_faces(), cv, *weight_axis_covers));
                assert(is_match_list_from(
                    fm,
                    *attrs,
                    self.spec_faces(),
                    self.spec_generics(),
                    *weight_axis_covers,
                ));
                assert(mono_drawn_with(
                    *matches,
                    *attrs,
                    self.spec_faces(),
                    self.spec_generics(),
                    self.monospace_fallback,
                    *weight_axis_covers,
                ));
                lemma_mono_drawn_with_same_attrs(
                    &*matches,
                    attrs,
                    &key,
                    self.spec_faces(),
                    self.spec_generics(),
                    self.monospace_fallback,
                    *weight_axis_covers,
                );
            }
            let l = (*font_match_keys)@;
            assert(is_mono_matches(
                *matches,
                *attrs,
                self.spec_faces(),
                self.spec_generics(),
                self.monospace_fallback,
            ));
            lemma_mono_matches_same_attrs(
                &*matches,
                attrs,
                &key,
                database_contents(self.db),
                database_generic_families(self.db),
                self.monospace_fallback,
            );
            assert(mono_matches_from(
                *matches,
                l,
                old(self).spec_faces(),
                resolve_family(family_view(&attrs.family), old(self).spec_generics()),
                old(self).spec_monospace_fallback(),
            ));
        }
        assert(self.monospace_font_matches_cache@ == after_loop);
        self.monospace_font_matches_cache.push((key, share(&matches)));
        proof {
            let n = after_loop.len() as int;
            assert(attrs_entry_is(self.monospace_font_matches_cache@, n, *attrs));
            assert forall|j: int| 0 <= j < n implies !#[trigger] attrs_entry_is(
                self.monospace_font_matches_cache@,
                j,
                *attrs,
            ) by {
                assert(self.monospace_font_matches_cache@[j] == after_loop[j]);
                assert(!attrs_entry_is(after_loop, j, *attrs));
            }
            lemma_first_attrs_entry(self.monospace_font_matches_cache@, n, *attrs);
            if mono_made && old(self).matches_cache_made_with(*weight_axis_covers) {
                assert forall|i: int| 0 <= i < self.spec_mono_cache().len() implies mono_drawn_with(
                    *#[trigger] self.spec_mono_cache()[i].1,
                    self.spec_mono_cache()[i].0,
                    self.spec_faces(),
                    self.spec_generics(),
                    self.spec_monospace_fallback(),
                    *weight_axis_covers,
                ) by {
                    if i < n {
                        assert(self.spec_mono_cache()[i] == pre.spec_mono_cache()[i]);
                        assert(pre.spec_faces() == self.spec_faces());
                        assert(pre.spec_generics() == self.spec_generics());
                    } else {
                        assert(self.spec_mono_cache()[i].0 == key);
                    }
                }
            }
        }
        assert(old(self).mono_cache_made_with(*weight_axis_covers) ==> mono_made);
        assert(old(self).spec_faces() == self.spec_faces());
        assert(old(self).spec_generics() == self.spec_generics());
        matches
    }

    /// Picks the monospace keys and the default family's key out of the
    /// font matches and ranks them.
    fn select_monospace_matches(&self, attrs: &FontMatchAttrs, font_match_keys: &Vec<FontMatchKey>) -> (r: MonoFontMatches)
        requires
            self.wf(),
        ensures
            mono_matches_from(
                r,
                font_match_keys@,
                self.spec_faces(),
                resolve_family(family_view(&attrs.family), self.spec_generics()),
                self.spec_monospace_fallback(),
            ),
    {
        let default_family_name = database_family_name(&self.db, &attrs.family);
        let ghost faces = self.spec_faces();
        let ghost name = default_family_name@;
        let mut keys: Vec<FontMatchKey> = Vec::new();
        let mut default_key: Option<FontMatchKey> = None;
        let mut i: usize = 0;
        while i < font_match_keys.len()
            invariant
                self.wf(),
                faces == self.spec_faces(),
                name == default_family_name@,
                0 <= i <= font_match_keys@.len(),
                keys@ == monospace_keys(font_match_keys@.take(i as int), faces),
                default_key == first_default(font_match_keys@.take(i as int), faces, name),
            decreases font_match_keys@.len() - i,
        {
            let m_key = font_match_keys[i];
            proof {
                assert(font_match_keys@.take(i + 1).drop_last() =~= font_match_keys@.take(i as int));
                assert(font_match_keys@.take(i + 1).last() == m_key);
            }
            if default_key.is_none() && (m_key.font_weight_diff == 0 || m_key.variable_weight_match)
                && self.face_contains_family(m_key.id, default_family_name.as_str()) {
                default_key = Some(m_key);
            }
            if self.is_monospace(m_key.id) {
                keys.push(m_key);
            }
            i = i + 1;
        }
        assert(font_match_keys@.take(font_match_keys@.len() as int) =~= font_match_keys@);
        // Without coverage data the ranking is the same for every word, so
        // it is made once here; with it, words are ranked one by one.
        let ranked = if self.monospace_fallback {
            Vec::new()
        } else {
            word_independent_ranking(&keys, default_key)
        };
        MonoFontMatches { keys, default_key, ranked }
    }

    /// Every codepoint support cache agrees with the loaded font of its
    /// face in `fonts`, where there is one.
    pub open spec fn caches_agree_with_fonts(&self, fonts: Seq<LoadedFont>) -> bool {
        forall|k: u64| #[trigger]
            self.spec_codepoint_caches().contains_key(k) ==> (lookup_codepoints(fonts, k) matches Some(
                cps,
            ) ==> self.spec_codepoint_caches()[k].agrees_with(cps))
    }

    /// How many characters of `word` the loaded font of face `id` covers,
    /// or `None` if it has no loaded font in `fonts`.
    fn supported_in_word(&mut self, id: FontId, fonts: &[LoadedFont], word: &str) -> (r: Option<usize>)
        requires
            old(self).wf(),
            word@.len() <= usize::MAX,
        ensures
            final(self).wf(),
            r matches Some(n) ==> n <= word@.len(),
            old(self).caches_agree_with_fonts(fonts@) ==> final(self).caches_agree_with_fonts(fonts@)
                && r == (match lookup_codepoints(fonts@, id.key) {
                Some(cps) => Some(supported_count(word@, cps) as usize),
                None => None,
            }),
            final(self).spec_locale() == old(self).spec_locale(),
            final(self).spec_db() == old(self).spec_db(),
            final(self).spec_monospace_ids() == old(self).spec_monospace_ids(),
            final(self).spec_per_script_ids() == old(self).spec_per_script_ids(),
            final(self).spec_monospace_current() == old(self).spec_monospace_current(),
            final(self).spec_monospace_fallback() == old(self).spec_monospace_fallback(),
            final(self).spec_rankings_cache() == old(self).spec_rankings_cache(),
            final(self).spec_cache_sizes() == old(self).spec_cache_sizes(),
            final(self).spec_matches_cache() == old(self).spec_matches_cache(),
            final(self).spec_mono_cache() == old(self).spec_mono_cache(),
    {
        let cps = find_font(fonts, id.key);
        let r = self.get_font_supported_codepoints_in_word(id, cps, word);
        proof {
            if old(self).caches_agree_with_fonts(fonts@) {
                match cps {
                    Some(c) => {
                        assert(old(self).codepoint_cache_agrees(id.key, c@));
                        assert forall|k: u64| #[trigger]
                            self.spec_codepoint_caches().contains_key(k) implies (lookup_codepoints(
                                fonts@,
                                k,
                            ) matches Some(cps2) ==> self.spec_codepoint_caches()[k].agrees_with(cps2)) by {
                            if k != id.key {
                                assert(old(self).spec_codepoint_caches().contains_key(k));
                            }
                        }
                    },
                    None => {},
                }
            }
        }
        r
    }

    /// The number of characters in `word`.
    fn char_count(word: &str) -> (n: usize)
        requires
            word@.len() <= usize::MAX,
        ensures
            n == word@.len(),
    {
        let ghost text = word@;
        let mut n: usize = 0;
        for _c in it: word.chars()
            invariant
                it.seq() == text,
                text.len() <= usize::MAX,
                n == it.index(),
        {
            n = n + 1;
        }
        n
    }

    /// Ranks the monospace candidates of `mono` for `word`, given the faces
    /// listed for the word's scripts and the loaded fonts.
    fn compute_word_ranking(
        &mut self,
        mono: &MonoFontMatches,
        word: &str,
        script_ids: &Vec<FontId>,
        fonts: &[LoadedFont],
    ) -> (r: Vec<MonospaceFallbackInfo>)
        requires
            old(self).wf(),
            word@.len() <= usize::MAX,
            strictly_sorted_ids(script_ids@),
        ensures
            final(self).wf(),
            sorted_by_rank(r@),
            old(self).caches_agree_with_fonts(fonts@) ==> final(self).caches_agree_with_fonts(fonts@)
                && is_word_ranking(r@, mono.keys@, mono.default_key, script_ids@, fonts@, word@),
            final(self).spec_locale() == old(self).spec_locale(),
            final(self).spec_db() == old(self).spec_db(),
            final(self).spec_monospace_ids() == old(self).spec_monospace_ids(),
            final(self).spec_per_script_ids() == old(self).spec_per_script_ids(),
            final(self).spec_monospace_current() == old(self).spec_monospace_current(),
            final(self).spec_monospace_fallback() == old(self).spec_monospace_fallback(),
            final(self).spec_rankings_cache() == old(self).spec_rankings_cache(),
            final(self).spec_cache_sizes() == old(self).spec_cache_sizes(),
            final(self).spec_matches_cache() == old(self).spec_matches_cache(),
            final(self).spec_mono_cache() == old(self).spec_mono_cache(),
    {
        let ghost agree = self.caches_agree_with_fonts(fonts@);
        let word_chars_count: usize = Self::char_count(word);
        let mut ranking: Vec<MonospaceFallbackInfo> = Vec::new();
        if let Some(default_key) = mono.default_key {
            if let Some(supported_cp_count) = self.supported_in_word(default_key.id, fonts, word) {
                proof {
                    if agree {
                        let cps = lookup_codepoints(fonts@, default_key.id.key)->0;
                        lemma_supported_count_bound(word@, cps);
                    }
                }
                let codepoint_non_matches: usize = word_chars_count - supported_cp_count;
                ranking.push(
                    MonospaceFallbackInfo {
                        font_weight_diff: None,
                        codepoint_non_matches: Some(codepoint_non_matches),
                        font_weight: default_key.font_weight,
                        id: default_key.id,
                    },
                );
                if codepoint_non_matches == 0 {
                    // The default font supports all of the word: it alone is the ranking.
                    return ranking;
                }
            }
        }
        assert(agree ==> ranking@ == word_default_entry(mono.default_key, fonts@, word@));
        assert(agree ==> !default_covers_word(mono.default_key, fonts@, word@));
        let ghost head = ranking@;
        let mut i: usize = 0;
        while i < mono.keys.len()
            invariant
                0 <= i <= mono.keys@.len(),
                self.wf(),
                word@.len() <= usize::MAX,
                word_chars_count == word@.len(),
                strictly_sorted_ids(script_ids@),
                agree ==> self.caches_agree_with_fonts(fonts@),
                agree ==> ranking@ == head + word_candidates(
                    mono.keys@.take(i as int),
                    mono.default_key,
                    script_ids@,
                    fonts@,
                    word@,
                ),
                self.spec_locale() == old(self).spec_locale(),
                self.spec_db() == old(self).spec_db(),
                self.spec_monospace_ids() == old(self).spec_monospace_ids(),
                self.spec_per_script_ids() == old(self).spec_per_script_ids(),
                self.spec_monospace_current() == old(self).spec_monospace_current(),
                self.spec_monospace_fallback() == old(self).spec_monospace_fallback(),
                self.spec_cache_sizes() == old(self).spec_cache_sizes(),
                self.spec_matches_cache() == old(self).spec_matches_cache(),
                self.spec_mono_cache() == old(self).spec_mono_cache(),
                self.spec_rankings_cache() == old(self).spec_rankings_cache(),
            decreases mono.keys@.len() - i,
        {
            let m_key = mono.keys[i];
            proof {
                assert(mono.keys@.take(i + 1).drop_last() =~= mono.keys@.take(i as int));
                assert(mono.keys@.take(i + 1).last() == m_key);
            }
            let is_default = match mono.default_key {
                Some(dk) => dk.id.key == m_key.id.key,
                None => false,
            };
            let filtered_out = script_ids.len() > 0 && !contains_id(script_ids, m_key.id.key);
            assert(filtered_out == (script_ids@.len() > 0 && !has_key(script_ids@, m_key.id.key)));
            if !is_default && !filtered_out {
                if let Some(supported_cp_count) = self.supported_in_word(m_key.id, fonts, word) {
                    proof {
                        if agree {
                            let cps = lookup_codepoints(fonts@, m_key.id.key)->0;
                            lemma_supported_count_bound(word@, cps);
                        }
                    }
                    let supported: usize = supported_cp_count;
                    ranking.push(
                        MonospaceFallbackInfo {
                            font_weight_diff: Some(m_key.font_weight_diff),
                            codepoint_non_matches: Some(word_chars_count - supported),
                            font_weight: m_key.font_weight,
                            id: m_key.id,
                        },
                    );
                }
            }
            i = i + 1;
        }
        assert(mono.keys@.take(mono.keys@.len() as int) =~= mono.keys@);
        sort_by_rank(&ranking)
    }

    /// Whether a ranking for these attributes and word is cached (and the
    /// cache is not full, which would empty it first).
    pub open spec fn ranking_cache_hit(&self, attrs: FontMatchAttrs, word: Seq<char>) -> bool {
        &&& self.spec_rankings_cache().len() < Self::FONT_MATCHES_CACHE_SIZE_LIMIT
        &&& exists|i: int| #[trigger] ranking_entry_is(self.spec_rankings_cache(), i, attrs, word)
    }

    /// The ranking cached for these attributes and word: that of the first
    /// entry for them.
    pub open spec fn cached_ranking(&self, attrs: FontMatchAttrs, word: Seq<char>) -> Seq<
        MonospaceFallbackInfo,
    > {
        first_cached_ranking(self.spec_rankings_cache(), attrs, word)
    }

    /// The monospace fallback ranking of `word`, best candidate first,
    /// given the monospace match data, the OpenType tags of the word's
    /// scripts and the loaded fonts of the faces (`fonts`, for the
    /// requested weight).
    ///
    /// Faces listed for the word's scripts are the only candidates besides
    /// the default face, when any face is listed for them. If the default
    /// face's font covers every character of the word, the ranking is that
    /// face alone. Rankings are cached per attributes and word; the cache is
    /// emptied when it is full.
    pub fn get_monospace_ranking_for_tags(
        &mut self,
        attrs: &FontMatchAttrs,
        mono: &MonoFontMatches,
        word: &str,
        tags: &[[u8; 4]],
        fonts: &[LoadedFont],
    ) -> (r: Arc<Vec<MonospaceFallbackInfo>>)
        requires
            old(self).wf(),
            word@.len() <= usize::MAX,
        ensures
            final(self).wf(),
            sorted_by_rank((*r)@),
            !old(self).ranking_cache_hit(*attrs, word@) ==> final(self).spec_monospace_current(),
            !old(self).ranking_cache_hit(*attrs, word@) && old(self).caches_agree_with_fonts(fonts@)
                ==> is_script_ranking(
                (*r)@,
                *mono,
                final(self).spec_per_script_ids(),
                tags@,
                fonts@,
                word@,
            ),
            old(self).caches_agree_with_fonts(fonts@) ==> final(self).caches_agree_with_fonts(
                fonts@,
            ),
            final(self).spec_locale() == old(self).spec_locale(),
            final(self).spec_db() == old(self).spec_db(),
            old(self).spec_monospace_current() ==> final(self).spec_monospace_ids() == old(
                self,
            ).spec_monospace_ids() && final(self).spec_per_script_ids() == old(
                self,
            ).spec_per_script_ids(),
            old(self).spec_monospace_current() ==> final(self).spec_monospace_current(),
            final(self).spec_monospace_fallback() == old(self).spec_monospace_fallback(),
            old(self).ranking_cache_hit(*attrs, word@) ==> (*r)@ == old(self).cached_ranking(
                *attrs,
                word@,
            ),
            final(self).spec_cache_sizes().2 < Self::FONT_MATCHES_CACHE_SIZE_LIMIT
                ==> final(self).ranking_cache_hit(*attrs, word@)
                && final(self).cached_ranking(*attrs, word@) == (*r)@,
            final(self).spec_cache_sizes().0 == old(self).spec_cache_sizes().0,
            final(self).spec_matches_cache() == old(self).spec_matches_cache(),
            final(self).spec_mono_cache() == old(self).spec_mono_cache(),
            final(self).spec_cache_sizes().1 == old(self).spec_cache_sizes().1,
    {
        let ghost full = self.monospace_rankings_cache@.len()
            >= Self::FONT_MATCHES_CACHE_SIZE_LIMIT;
        // Clear the cache first if it reached the size limit
        if self.monospace_rankings_cache.len() >= Self::FONT_MATCHES_CACHE_SIZE_LIMIT {
            self.monospace_rankings_cache.clear();
        }
        assert(full ==> self.monospace_rankings_cache@.len() == 0);
        assert(!full ==> self.monospace_rankings_cache@ == old(self).monospace_rankings_cache@);
        assert(self.spec_codepoint_caches() == old(self).spec_codepoint_caches());
        assert(self.caches_agree_with_fonts(fonts@) == old(self).caches_agree_with_fonts(fonts@));
        let ghost cleared = *self;
        let wanted = word.to_owned();
        let mut c: usize = 0;
        while c < self.monospace_rankings_cache.len()
            invariant
                *self == cleared,
                self.wf(),
                full == (old(self).monospace_rankings_cache@.len()
                    >= Self::FONT_MATCHES_CACHE_SIZE_LIMIT),
                full ==> self.monospace_rankings_cache@.len() == 0,
                !full ==> self.monospace_rankings_cache@ == old(self).monospace_rankings_cache@,
                self.spec_codepoint_caches() == old(self).spec_codepoint_caches(),
                self.caches_agree_with_fonts(fonts@) == old(self).caches_agree_with_fonts(fonts@),
                self.spec_locale() == old(self).spec_locale(),
                self.spec_db() == old(self).spec_db(),
                self.spec_monospace_ids() == old(self).spec_monospace_ids(),
                self.spec_per_script_ids() == old(self).spec_per_script_ids(),
                self.spec_monospace_current() == old(self).spec_monospace_current(),
                self.spec_monospace_fallback() == old(self).spec_monospace_fallback(),
                self.spec_cache_sizes().0 == old(self).spec_cache_sizes().0,
                self.spec_matches_cache() == old(self).spec_matches_cache(),
                self.spec_mono_cache() == old(self).spec_mono_cache(),
                self.spec_cache_sizes().1 == old(self).spec_cache_sizes().1,
                wanted@ == word@,
                0 <= c <= self.monospace_rankings_cache@.len(),
                forall|j: int|
                    0 <= j < c ==> !#[trigger] ranking_entry_is(
                        self.monospace_rankings_cache@,
                        j,
                        *attrs,
                        word@,
                    ),
            decreases self.monospace_rankings_cache@.len() - c,
        {
            if self.monospace_rankings_cache[c].0.same(attrs) && self.monospace_rankings_cache[c].1
                == wanted {
                assert(sorted_by_rank((*self.monospace_rankings_cache@[c as int].2)@));
                assert(!full);
                assert(old(self).ranking_cache_hit(*attrs, word@)) by {
                    assert(old(self).monospace_rankings_cache@ == self.monospace_rankings_cache@);
                    assert(ranking_entry_is(
                        old(self).monospace_rankings_cache@,
                        c as int,
                        *attrs,
                        word@,
                    ));
                }
                proof {
                    assert(ranking_entry_is(self.monospace_rankings_cache@, c as int, *attrs, word@));
                    lemma_first_cached_ranking(self.monospace_rankings_cache@, c as int, *attrs, word@);
                }
                return share(&self.monospace_rankings_cache[c].2);
            }
            c = c + 1;
        }
        assert(!old(self).ranking_cache_hit(*attrs, word@)) by {
            if !full {
                assert(self.monospace_rankings_cache@ == old(self).monospace_rankings_cache@);
                if old(self).ranking_cache_hit(*attrs, word@) {
                    let i = choose|i: int| #[trigger]
                        ranking_entry_is(old(self).monospace_rankings_cache@, i, *attrs, word@);
                    assert(!ranking_entry_is(self.monospace_rankings_cache@, i, *attrs, word@));
                }
            }
        }
        let ghost after_loop = self.monospace_rankings_cache@;
        self.refresh_monospace();
        let mono_ids_for_scripts = self.get_monospace_ids_for_scripts(tags);
        let ranking = self.compute_word_ranking(mono, word, &mono_ids_for_scripts, fonts);
        let ghost computed = *self;
        let arc = Arc::new(ranking);
        let ghost before_push = self.monospace_rankings_cache@;
        self.monospace_rankings_cache.push((attrs.duplicate(), wanted, share(&arc)));
        proof {
            let n = before_push.len() as int;
            assert(ranking_entry_is(self.monospace_rankings_cache@, n, *attrs, word@));
            assert forall|j: int| 0 <= j < n implies !#[trigger] ranking_entry_is(
                self.monospace_rankings_cache@,
                j,
                *attrs,
                word@,
            ) by {
                assert(self.monospace_rankings_cache@[j] == before_push[j]);
                assert(before_push == after_loop);
                assert(!ranking_entry_is(after_loop, j, *attrs, word@));
            }
            lemma_first_cached_ranking(self.monospace_rankings_cache@, n, *attrs, word@);
        }
        assert(self.spec_codepoint_caches() == computed.spec_codepoint_caches());
        assert(self.caches_agree_with_fonts(fonts@) == computed.caches_agree_with_fonts(fonts@));
        arc
    }

    /// The monospace fallback ranking of `word` for the scripts with the
    /// given ISO 15924 codes: that of [`Self::get_monospace_ranking_for_tags`]
    /// for the codes' OpenType tags, the lowercase codes of four ASCII
    /// characters.
    pub fn get_monospace_ranking(
        &mut self,
        attrs: &FontMatchAttrs,
        mono: &MonoFontMatches,
        word: &str,
        script_codes: &[String],
        fonts: &[LoadedFont],
    ) -> (r: Arc<Vec<MonospaceFallbackInfo>>)
        requires
            old(self).wf(),
            word@.len() <= usize::MAX,
        ensures
            final(self).wf(),
            sorted_by_rank((*r)@),
            !old(self).ranking_cache_hit(*attrs, word@) ==> final(self).spec_monospace_current(),
            !old(self).ranking_cache_hit(*attrs, word@) && old(self).caches_agree_with_fonts(fonts@)
                ==> is_script_ranking(
                (*r)@,
                *mono,
                final(self).spec_per_script_ids(),
                codes_to_tags(script_codes@.map_values(|s: String| s@)),
                fonts@,
                word@,
            ),
            old(self).caches_agree_with_fonts(fonts@) ==> final(self).caches_agree_with_fonts(
                fonts@,
            ),
            final(self).spec_locale() == old(self).spec_locale(),
            final(self).spec_db() == old(self).spec_db(),
            old(self).spec_monospace_current() ==> final(self).spec_monospace_ids() == old(
                self,
            ).spec_monospace_ids() && final(self).spec_per_script_ids() == old(
                self,
            ).spec_per_script_ids(),
            old(self).spec_monospace_current() ==> final(self).spec_monospace_current(),
            final(self).spec_monospace_fallback() == old(self).spec_monospace_fallback(),
            old(self).ranking_cache_hit(*attrs, word@) ==> (*r)@ == old(self).cached_ranking(
                *attrs,
                word@,
            ),
            final(self).spec_cache_sizes().2 < Self::FONT_MATCHES_CACHE_SIZE_LIMIT
                ==> final(self).ranking_cache_hit(*attrs, word@)
                && final(self).cached_ranking(*attrs, word@) == (*r)@,
            final(self).spec_cache_sizes().0 == old(self).spec_cache_sizes().0,
            final(self).spec_matches_cache() == old(self).spec_matches_cache(),
            final(self).spec_mono_cache() == old(self).spec_mono_cache(),
            final(self).spec_cache_sizes().1 == old(self).spec_cache_sizes().1,
    {
        let tags = tags_of_codes(script_codes);
        self.get_monospace_ranking_for_tags(attrs, mono, word, tags.as_slice(), fonts)
    }
}

} // verus!
