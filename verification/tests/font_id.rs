use cosmic_text_fonts::font::font_id::{order_key_from_ffi, parse_u64};
use cosmic_text_fonts::FontId;

#[test]
fn parse_u64_reads_decimal() {
    assert_eq!(parse_u64("0"), Some(0));
    assert_eq!(parse_u64("4294967297"), Some(4294967297));
    assert_eq!(parse_u64("18446744073709551615"), Some(u64::MAX));
}

#[test]
fn parse_u64_refuses_other_text() {
    assert_eq!(parse_u64(""), None);
    assert_eq!(parse_u64("12a"), None);
    assert_eq!(parse_u64("-1"), None);
    assert_eq!(parse_u64("18446744073709551616"), None);
    assert_eq!(parse_u64("99999999999999999999x"), None);
}

#[test]
fn order_key_puts_the_slot_index_first() {
    // version 1, index 2 and version 3, index 1
    let a = (1u64 << 32) | 2;
    let b = (3u64 << 32) | 1;
    assert_eq!(order_key_from_ffi(a), (2u64 << 32) | 1);
    assert_eq!(order_key_from_ffi(b), (1u64 << 32) | 3);
    assert!(order_key_from_ffi(b) < order_key_from_ffi(a));
}

#[test]
fn font_ids_order_like_fontdb_ids() {
    let mut db = fontdb::Database::new();
    let mut ids = Vec::new();
    for _ in 0..3 {
        ids.push(db.push_face_info(face("F", false)));
    }
    db.remove_face(ids[0]);
    let reused = db.push_face_info(face("G", false));
    let mut all = vec![ids[1], ids[2], reused];
    all.sort();
    let keys: Vec<u64> =
        all.iter().map(|id| FontId::from_text(&id.to_string()).unwrap().key).collect();
    let mut sorted = keys.clone();
    sorted.sort();
    assert_eq!(keys, sorted);
    let reused_key = FontId::from_text(&reused.to_string()).unwrap().key;
    let old_key = FontId::from_text(&ids[0].to_string()).unwrap().key;
    assert_ne!(reused_key, old_key);
}

#[test]
fn font_id_from_text() {
    assert_eq!(FontId::from_text("4294967298"), Some(FontId { key: (2u64 << 32) | 1 }));
    assert_eq!(FontId::from_text("x"), None);
    assert_eq!(FontId::from_text(""), None);
}

fn face(name: &str, monospaced: bool) -> fontdb::FaceInfo {
    fontdb::FaceInfo {
        id: fontdb::ID::dummy(),
        source: fontdb::Source::Binary(std::sync::Arc::new(Vec::<u8>::new())),
        index: 0,
        families: vec![(name.to_string(), fontdb::Language::English_UnitedStates)],
        post_script_name: name.to_string(),
        style: fontdb::Style::Normal,
        weight: fontdb::Weight(400),
        stretch: fontdb::Stretch::Normal,
        monospaced,
    }
}
