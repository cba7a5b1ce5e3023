use cosmic_text_fonts::font::db::str_contains;
use cosmic_text_fonts::font::match_key::promote_key;
use cosmic_text_fonts::font::order::sort_by_rank;
use cosmic_text_fonts::font::system::{add_script_tags, code_tag_of, tags_of_codes};
use std::collections::HashMap;
use cosmic_text_fonts::{
    FaceSummary, FontFamily, FontId, FontMatchAttrs, FontMatchKey, FontStretch, FontStyle,
    FontSystem, LoadedFont,
};

fn face(family: &str, ps: &str, weight: u16, monospaced: bool) -> fontdb::FaceInfo {
    fontdb::FaceInfo {
        id: fontdb::ID::dummy(),
        source: fontdb::Source::Binary(std::sync::Arc::new(Vec::<u8>::new())),
        index: 0,
        families: vec![(family.to_string(), fontdb::Language::English_UnitedStates)],
        post_script_name: ps.to_string(),
        style: fontdb::Style::Normal,
        weight: fontdb::Weight(weight),
        stretch: fontdb::Stretch::Normal,
        monospaced,
    }
}

fn id_of(raw: fontdb::ID) -> FontId {
    FontId::from_text(&raw.to_string()).unwrap()
}

struct Fixture {
    fs: FontSystem,
    a: FontId,
    b: FontId,
    emoji: FontId,
    sans: FontId,
    raw_a: fontdb::ID,
}

fn fixture() -> Fixture {
    let mut db = fontdb::Database::new();
    let a = db.push_face_info(face("Mono A", "MonoA-Regular", 400, true));
    let b = db.push_face_info(face("Mono B", "MonoB-Bold", 700, true));
    let emoji = db.push_face_info(face("Emoji Mono", "NotoColorEmoji", 400, true));
    let sans = db.push_face_info(face("Sans", "Sans-Regular", 400, false));
    Fixture {
        fs: FontSystem::new_with_locale_and_db("en-US".to_string(), db),
        a: id_of(a),
        b: id_of(b),
        emoji: id_of(emoji),
        sans: id_of(sans),
        raw_a: a,
    }
}

fn attrs(family: &str, weight: u16) -> FontMatchAttrs {
    FontMatchAttrs {
        family: FontFamily::Name(family.to_string()),
        weight,
        stretch: FontStretch::Normal,
        style: FontStyle::Normal,
    }
}

fn no_axis(_id: FontId, _w: u16) -> bool {
    false
}

#[test]
fn monospace_faces_exclude_emoji_and_proportional() {
    let f = fixture();
    assert!(f.fs.is_monospace(f.a));
    assert!(f.fs.is_monospace(f.b));
    assert!(!f.fs.is_monospace(f.emoji));
    assert!(!f.fs.is_monospace(f.sans));
}

#[test]
fn locale_and_database_round_trip() {
    let f = fixture();
    assert_eq!(f.fs.locale(), "en-US");
    assert_eq!(f.fs.db().len(), 4);
    let (locale, db) = f.fs.into_locale_and_db();
    assert_eq!(locale, "en-US");
    assert_eq!(db.len(), 4);
}

#[test]
fn font_matches_sort_then_put_the_query_first() {
    let mut f = fixture();
    let keys = f.fs.get_font_matches(&attrs("Sans", 400), &no_axis);
    let ids: Vec<u64> = keys.iter().map(|k| k.id.key).collect();
    // Emoji faces sort first, then weight difference 0 by ID, then the
    // bold face; the database's own pick ("Sans") goes to the front.
    assert_eq!(ids, vec![f.sans.key, f.emoji.key, f.a.key, f.b.key]);
    assert!(!keys[1].not_emoji);
    assert_eq!(keys[3].font_weight_diff, 300);
    assert_eq!(keys[3].font_stretch, 5);
    assert_eq!(keys[3].font_weight, 700);
    // A second call is answered from the cache.
    let again = f.fs.get_font_matches(&attrs("Sans", 400), &no_axis);
    assert!(std::sync::Arc::ptr_eq(&keys, &again));
}

#[test]
fn monospace_matches_pick_the_default_family() {
    let mut f = fixture();
    let mono = f.fs.get_monospace_font_matches(&attrs("Mono B", 700), &no_axis);
    let keys: Vec<u64> = mono.keys.iter().map(|k| k.id.key).collect();
    assert_eq!(keys, vec![f.b.key, f.a.key]);
    assert_eq!(mono.default_key.unwrap().id.key, f.b.key);
    assert_eq!(mono.ranked.len(), 2);
    assert_eq!(mono.ranked[0].font_weight_diff, None);
    assert_eq!(mono.ranked[0].id.key, f.b.key);
    assert_eq!(mono.ranked[1].font_weight_diff, Some(300));
    assert_eq!(mono.ranked[1].font_weight, 400);
    assert_eq!(mono.ranked[1].codepoint_non_matches, None);
}

#[test]
fn monospace_matches_without_default_face() {
    let mut f = fixture();
    let mono = f.fs.get_monospace_font_matches(&attrs("Missing", 400), &no_axis);
    assert!(mono.default_key.is_none());
    let ranked: Vec<u64> = mono.ranked.iter().map(|r| r.id.key).collect();
    // Same weight difference (0 for A, 300 for B): A first.
    assert_eq!(ranked, vec![f.a.key, f.b.key]);
}

#[test]
fn variable_weight_axis_can_make_the_default() {
    let mut f = fixture();
    let covers = |id: FontId, w: u16| w == 500 && id.key == f.a.key;
    let mono = f.fs.get_monospace_font_matches(&attrs("Mono A", 500), &covers);
    let dk = mono.default_key.unwrap();
    assert_eq!(dk.id.key, f.a.key);
    assert!(dk.variable_weight_match);
    assert_eq!(dk.font_weight_diff, 100);
}

#[test]
fn ranking_default_font_alone_when_it_covers_the_word() {
    let mut f = fixture();
    let at = attrs("Mono B", 700);
    let mono = f.fs.get_monospace_font_matches(&at, &no_axis);
    let fonts = vec![
        LoadedFont { id: f.b, unicode_codepoints: vec![97, 98] },
        LoadedFont { id: f.a, unicode_codepoints: vec![97, 98] },
    ];
    let ranking = f.fs.get_monospace_ranking(&at, &mono, "ab", &[], &fonts);
    assert_eq!(ranking.len(), 1);
    assert_eq!(ranking[0].id.key, f.b.key);
    assert_eq!(ranking[0].codepoint_non_matches, Some(0));
}

#[test]
fn ranking_counts_missing_characters() {
    let mut f = fixture();
    let at = attrs("Mono B", 700);
    let mono = f.fs.get_monospace_font_matches(&at, &no_axis);
    let fonts = vec![
        LoadedFont { id: f.b, unicode_codepoints: vec![97] },
        LoadedFont { id: f.a, unicode_codepoints: vec![97, 98] },
    ];
    let ranking = f.fs.get_monospace_ranking(&at, &mono, "ab", &[], &fonts);
    assert_eq!(ranking.len(), 2);
    assert_eq!(ranking[0].id.key, f.b.key);
    assert_eq!(ranking[0].font_weight_diff, None);
    assert_eq!(ranking[0].codepoint_non_matches, Some(1));
    assert_eq!(ranking[1].id.key, f.a.key);
    assert_eq!(ranking[1].font_weight_diff, Some(300));
    assert_eq!(ranking[1].codepoint_non_matches, Some(0));
}

#[test]
fn ranking_skips_faces_without_a_loaded_font() {
    let mut f = fixture();
    let at = attrs("Missing", 400);
    let mono = f.fs.get_monospace_font_matches(&at, &no_axis);
    let fonts = vec![LoadedFont { id: f.b, unicode_codepoints: vec![120] }];
    let ranking = f.fs.get_monospace_ranking(&at, &mono, "xy", &[], &fonts);
    assert_eq!(ranking.len(), 1);
    assert_eq!(ranking[0].id.key, f.b.key);
    assert_eq!(ranking[0].codepoint_non_matches, Some(1));
}

#[test]
fn supported_codepoints_in_word() {
    let mut f = fixture();
    let cps = [97u32, 98];
    assert_eq!(f.fs.get_font_supported_codepoints_in_word(f.a, Some(&cps), "abc"), Some(2));
    assert_eq!(f.fs.get_font_supported_codepoints_in_word(f.a, Some(&cps), "aaa"), Some(3));
    assert_eq!(f.fs.get_font_supported_codepoints_in_word(f.a, Some(&cps), ""), Some(0));
    assert_eq!(f.fs.get_font_supported_codepoints_in_word(f.a, None, "abc"), None);
}

#[test]
fn no_script_data_means_no_script_ids() {
    let f = fixture();
    assert!(f.fs.get_monospace_ids_for_scripts(&[*b"latn", *b"arab"]).is_empty());
}

#[test]
fn face_family_lookup() {
    let f = fixture();
    assert!(f.fs.face_contains_family(f.a, "Mono A"));
    assert!(!f.fs.face_contains_family(f.a, "Mono B"));
}

#[test]
fn db_mut_empties_the_match_caches() {
    let mut f = fixture();
    let first = f.fs.get_font_matches(&attrs("Sans", 400), &no_axis);
    f.fs.db_mut();
    let second = f.fs.get_font_matches(&attrs("Sans", 400), &no_axis);
    assert!(!std::sync::Arc::ptr_eq(&first, &second));
    assert_eq!(first.len(), second.len());
}

#[test]
fn generic_families_follow_the_defaults() {
    let mut db = fontdb::Database::new();
    db.push_face_info(face("Noto Sans Mono", "NotoSansMono-Regular", 400, true));
    let mut fs = FontSystem::finish_with_db(db, "de-DE".to_string());
    assert_eq!(fs.locale(), "de-DE");
    let at = FontMatchAttrs {
        family: FontFamily::Monospace,
        weight: 400,
        stretch: FontStretch::Normal,
        style: FontStyle::Normal,
    };
    let mono = fs.get_monospace_font_matches(&at, &no_axis);
    assert!(mono.default_key.is_some());
}

#[test]
fn match_key_fields() {
    let id = fixture().a;
    let summary = FaceSummary {
        id,
        post_script_name: "Face-Emoji".to_string(),
        style: FontStyle::Oblique,
        weight: 300,
        stretch: 7,
        monospaced: false,
    };
    let at = FontMatchAttrs {
        family: FontFamily::Serif,
        weight: 400,
        stretch: FontStretch::Condensed,
        style: FontStyle::Italic,
    };
    let k = FontMatchKey::new(&at, &summary, true);
    assert!(!k.not_emoji);
    assert_eq!(k.font_weight_diff, 100);
    assert_eq!(k.font_stretch_diff, 4);
    assert_eq!(k.font_style_diff, 1);
    assert!(k.variable_weight_match);
    let upright = FontMatchAttrs { style: FontStyle::Normal, weight: 300, ..at };
    let k2 = FontMatchKey::new(&upright, &summary, true);
    assert_eq!(k2.font_style_diff, 2);
    assert!(!k2.variable_weight_match);
}

#[test]
fn faces_added_through_db_mut_count_as_monospace() {
    let mut f = fixture();
    let c = f.fs.db_mut().push_face_info(face("Mono C", "MonoC-Regular", 400, true));
    let d = f.fs.db_mut().push_face_info(face("Emoji C", "AppleColorEmoji", 400, true));
    assert!(f.fs.is_monospace(id_of(c)));
    assert!(!f.fs.is_monospace(id_of(d)));
    assert!(f.fs.is_monospace(f.a));
    f.fs.db_mut().remove_face(f.raw_a);
    assert!(!f.fs.is_monospace(f.a));
}

fn mono_face(family: &str, weight: u16) -> fontdb::FaceInfo {
    face(family, family, weight, true)
}

fn monospace_attrs(weight: u16) -> FontMatchAttrs {
    FontMatchAttrs {
        family: FontFamily::Monospace,
        weight,
        stretch: FontStretch::Normal,
        style: FontStyle::Normal,
    }
}

#[test]
fn default_monospace_family_ranks_first_then_weight() {
    let mut db = fontdb::Database::new();
    db.set_monospace_family("M");
    let a = id_of(db.push_face_info(mono_face("M", 400)));
    let b = id_of(db.push_face_info(mono_face("N", 700)));
    let c = id_of(db.push_face_info(mono_face("P", 500)));
    let mut fs = FontSystem::new_with_locale_and_db("en-US".to_string(), db);
    let mono = fs.get_monospace_font_matches(&monospace_attrs(400), &no_axis);
    let keys: Vec<u64> = mono.keys.iter().map(|k| k.id.key).collect();
    assert_eq!(keys, vec![a.key, c.key, b.key]);
    assert_eq!(mono.default_key.unwrap().id.key, a.key);
    let ranked: Vec<(u64, Option<u16>)> =
        mono.ranked.iter().map(|i| (i.id.key, i.font_weight_diff)).collect();
    assert_eq!(ranked, vec![(a.key, None), (c.key, Some(100)), (b.key, Some(300))]);
}

#[test]
fn default_monospace_family_missing_leaves_no_default() {
    let mut db = fontdb::Database::new();
    let fira = id_of(db.push_face_info(mono_face("Fira Mono", 500)));
    db.push_face_info(face("Inter", "Inter-Regular", 400, false));
    let mut fs = FontSystem::finish_with_db(db, "en-US".to_string());
    let mono = fs.get_monospace_font_matches(&monospace_attrs(500), &no_axis);
    assert!(mono.default_key.is_none());
    let keys: Vec<u64> = mono.keys.iter().map(|k| k.id.key).collect();
    assert_eq!(keys, vec![fira.key]);
    let named = fs.get_font_matches(&attrs("Fira Mono", 500), &no_axis);
    assert_eq!(named[0].id.key, fira.key);
    let ranked: Vec<u64> = mono.ranked.iter().map(|i| i.id.key).collect();
    assert_eq!(ranked, vec![fira.key]);
}

#[test]
fn configured_monospace_family_becomes_the_default() {
    let mut db = fontdb::Database::new();
    let fira = id_of(db.push_face_info(mono_face("Fira Mono", 500)));
    db.push_face_info(face("Inter", "Inter-Regular", 400, false));
    let mut fs = FontSystem::finish_with_db(db, "en-US".to_string());
    fs.db_mut().set_monospace_family("Fira Mono");
    let mono = fs.get_monospace_font_matches(&monospace_attrs(500), &no_axis);
    let dk = mono.default_key.unwrap();
    assert_eq!(dk.id.key, fira.key);
    assert_eq!(dk.font_weight_diff, 0);
    assert!(fs.face_contains_family(dk.id, "Fira Mono"));
    assert_eq!(mono.ranked.len(), 1);
    assert_eq!(mono.ranked[0].font_weight_diff, None);
    assert_eq!(mono.ranked[0].codepoint_non_matches, None);
    assert_eq!(mono.ranked[0].font_weight, 500);
    let fonts = vec![LoadedFont { id: fira, unicode_codepoints: "Label value".chars().map(|c| c as u32).collect() }];
    for word in ["Label", "value", " "] {
        let r = fs.get_monospace_ranking(&monospace_attrs(500), &mono, word, &[], &fonts);
        assert_eq!(r.len(), 1);
        assert_eq!(r[0].id.key, fira.key);
        assert_eq!(r[0].codepoint_non_matches, Some(0));
    }
}

#[test]
fn recomputed_matches_equal_the_cached_ones() {
    let mut f = fixture();
    let first: Vec<FontMatchKey> = f.fs.get_font_matches(&attrs("Sans", 400), &no_axis).to_vec();
    for w in 0..300u16 {
        f.fs.get_font_matches(&attrs("Other", w), &no_axis);
    }
    let again: Vec<FontMatchKey> = f.fs.get_font_matches(&attrs("Sans", 400), &no_axis).to_vec();
    assert_eq!(first, again);
}

#[test]
fn script_tags_restrict_the_candidates() {
    let mut f = fixture();
    let at = attrs("Missing", 400);
    let mono = f.fs.get_monospace_font_matches(&at, &no_axis);
    let fonts = vec![
        LoadedFont { id: f.a, unicode_codepoints: vec![120] },
        LoadedFont { id: f.b, unicode_codepoints: vec![120] },
    ];
    // No face is listed for the tags, so every candidate stays.
    let r = f.fs.get_monospace_ranking_for_tags(&at, &mono, "x", &[*b"latn"], &fonts);
    let ids: Vec<u64> = r.iter().map(|i| i.id.key).collect();
    assert_eq!(ids, vec![f.a.key, f.b.key]);
}

#[test]
fn promote_moves_first_match_to_front() {
    let f = fixture();
    let at = attrs("X", 400);
    let s = |id: FontId, w: u16| FaceSummary {
        id,
        post_script_name: "P".to_string(),
        style: FontStyle::Normal,
        weight: w,
        stretch: 5,
        monospaced: true,
    };
    let keys = vec![
        FontMatchKey::new(&at, &s(f.b, 900), false),
        FontMatchKey::new(&at, &s(f.a, 400), false),
        FontMatchKey::new(&at, &s(f.sans, 500), false),
    ];
    let mut sorted = sort_by_rank(&keys);
    let order: Vec<u64> = sorted.iter().map(|k| k.id.key).collect();
    assert_eq!(order, vec![f.a.key, f.sans.key, f.b.key]);
    assert!(promote_key(&mut sorted, f.b.key));
    let order: Vec<u64> = sorted.iter().map(|k| k.id.key).collect();
    assert_eq!(order, vec![f.b.key, f.a.key, f.sans.key]);
    assert!(!promote_key(&mut sorted, 12345));
    assert_eq!(sorted.len(), 3);
}

#[test]
fn script_codes_make_four_byte_tags() {
    assert_eq!(code_tag_of("Latn"), Some(*b"latn"));
    assert_eq!(code_tag_of("ZYYY"), Some(*b"zyyy"));
    assert_eq!(code_tag_of("lat"), None);
    assert_eq!(code_tag_of("latin"), None);
    assert_eq!(code_tag_of("Lätn"), None);
    let codes = vec!["Latn".to_string(), "Arab".to_string(), "Xx".to_string(), "Grek".to_string()];
    assert_eq!(tags_of_codes(&codes), vec![*b"latn", *b"arab", *b"grek"]);
}

#[test]
fn per_word_ranking_leaves_the_shared_ranking_empty() {
    let mut db = fontdb::Database::new();
    db.set_monospace_family("M");
    let a = id_of(db.push_face_info(mono_face("M", 400)));
    let b = id_of(db.push_face_info(mono_face("N", 700)));
    let mut fs = FontSystem::new_with_locale_and_db_and_monospace_fallback(
        "en-US".to_string(),
        db,
        true,
    );
    let mono = fs.get_monospace_font_matches(&monospace_attrs(400), &no_axis);
    let keys: Vec<u64> = mono.keys.iter().map(|k| k.id.key).collect();
    assert_eq!(keys, vec![a.key, b.key]);
    assert_eq!(mono.default_key.unwrap().id.key, a.key);
    assert!(mono.ranked.is_empty());
    // Faces without font data list no scripts.
    assert!(fs.get_monospace_ids_for_scripts(&[*b"latn"]).is_empty());
}

#[test]
fn script_records_list_the_monospace_faces() {
    let path = "/usr/share/fonts/truetype/dejavu/DejaVuSansMono.ttf";
    let mut db = fontdb::Database::new();
    if db.load_font_file(path).is_err() {
        // The font is not installed here.
        return;
    }
    let raw = db.faces().next().unwrap().id;
    let id = id_of(raw);
    let mut fs = FontSystem::new_with_locale_and_db_and_monospace_fallback(
        "en-US".to_string(),
        db,
        true,
    );
    assert!(fs.is_monospace(id));
    let latin: Vec<u64> = fs.get_monospace_ids_for_scripts(&[*b"latn"]).iter().map(|i| i.key).collect();
    assert_eq!(latin, vec![id.key]);
    assert!(fs.get_monospace_ids_for_scripts(&[*b"zzzz"]).is_empty());
    let at = FontMatchAttrs {
        family: FontFamily::Monospace,
        weight: 400,
        stretch: FontStretch::Normal,
        style: FontStyle::Normal,
    };
    fs.db_mut().set_monospace_family("DejaVu Sans Mono");
    let mono = fs.get_monospace_font_matches(&at, &no_axis);
    assert_eq!(mono.default_key.unwrap().id.key, id.key);
    fs.db_mut().remove_face(raw);
    assert!(!fs.is_monospace(id));
    assert!(fs.get_monospace_ids_for_scripts(&[*b"latn"]).is_empty());
}

#[test]
fn recomputed_monospace_matches_equal_the_cached_ones() {
    let mut f = fixture();
    let first = f.fs.get_monospace_font_matches(&attrs("Mono B", 700), &no_axis);
    for w in 0..300u16 {
        f.fs.get_monospace_font_matches(&attrs("Other", w), &no_axis);
    }
    let again = f.fs.get_monospace_font_matches(&attrs("Mono B", 700), &no_axis);
    assert!(!std::sync::Arc::ptr_eq(&first, &again));
    assert_eq!(first.keys, again.keys);
    assert_eq!(first.default_key, again.default_key);
    assert_eq!(first.ranked, again.ranked);
}

#[test]
fn substring_search() {
    assert!(str_contains("NotoColorEmoji", "Emoji"));
    assert!(str_contains("Emoji", "Emoji"));
    assert!(str_contains("abc", ""));
    assert!(str_contains("", ""));
    assert!(!str_contains("Emo", "Emoji"));
    assert!(!str_contains("EmojI", "Emoji"));
    assert!(!str_contains("", "a"));
}

#[test]
fn script_tags_fill_the_table() {
    let mut map: HashMap<u32, Vec<FontId>> = HashMap::new();
    let latn = u32::from_be_bytes(*b"latn");
    let arab = u32::from_be_bytes(*b"arab");
    add_script_tags(&mut map, FontId { key: 7 }, &[*b"latn", *b"arab", *b"latn"]);
    add_script_tags(&mut map, FontId { key: 3 }, &[*b"latn"]);
    add_script_tags(&mut map, FontId { key: 5 }, &[]);
    assert_eq!(map.len(), 2);
    let keys = |t: u32| map[&t].iter().map(|i| i.key).collect::<Vec<u64>>();
    assert_eq!(keys(latn), vec![3, 7]);
    assert_eq!(keys(arab), vec![7]);
}

#[test]
fn script_codes_pick_the_listed_faces() {
    let mut db = fontdb::Database::new();
    db.set_monospace_family("M");
    let a = id_of(db.push_face_info(mono_face("M", 400)));
    let b = id_of(db.push_face_info(mono_face("N", 700)));
    let mut fs = FontSystem::new_with_locale_and_db("en-US".to_string(), db);
    let mono = fs.get_monospace_font_matches(&monospace_attrs(400), &no_axis);
    let fonts = vec![
        LoadedFont { id: a, unicode_codepoints: vec![] },
        LoadedFont { id: b, unicode_codepoints: vec![120] },
    ];
    // No script data: every candidate stays, the default face first.
    let r = fs.get_monospace_ranking(&monospace_attrs(400), &mono, "x", &["Latn".to_string()], &fonts);
    let ids: Vec<u64> = r.iter().map(|i| i.id.key).collect();
    assert_eq!(ids, vec![a.key, b.key]);
}

#[test]
fn supported_counts_add_up_over_words() {
    let mut f = fixture();
    let cps = [97u32, 98];
    let x = f.fs.get_font_supported_codepoints_in_word(f.a, Some(&cps), "abx").unwrap();
    let y = f.fs.get_font_supported_codepoints_in_word(f.a, Some(&cps), "bba").unwrap();
    let xy = f.fs.get_font_supported_codepoints_in_word(f.a, Some(&cps), "abxbba").unwrap();
    assert_eq!(xy, x + y);
    assert_eq!(f.fs.get_font_supported_codepoints_in_word(f.a, Some(&cps), ""), Some(0));
}
