use cosmic_text_fonts::font::codepoint_cache::{search_sorted, slice_contains};
use cosmic_text_fonts::FontCachedCodepointSupportInfo;

#[test]
fn new_cache_is_empty_and_answers_from_the_font() {
    let mut cache = FontCachedCodepointSupportInfo::new();
    let font = [65u32, 66, 67, 1000];
    assert!(cache.has_codepoint(&font, 66));
    assert!(!cache.has_codepoint(&font, 68));
    assert!(cache.has_codepoint(&font, 1000));
    assert!(!cache.has_codepoint(&font, 0));
}

#[test]
fn cached_answers_stay_the_same() {
    let mut cache = FontCachedCodepointSupportInfo::new();
    let font = [10u32, 20, 30];
    for _ in 0..3 {
        assert!(cache.has_codepoint(&font, 20));
        assert!(!cache.has_codepoint(&font, 25));
    }
}

#[test]
fn cache_answers_win_over_a_different_font() {
    // A cache answers from what it recorded for the font it was built with.
    let mut cache = FontCachedCodepointSupportInfo::new();
    assert!(cache.has_codepoint(&[7u32], 7));
    assert!(!cache.has_codepoint(&[], 8));
    assert!(cache.has_codepoint(&[], 7));
    assert!(!cache.has_codepoint(&[8u32], 8));
}

#[test]
fn unknown_has_codepoint_records_at_the_insertion_point() {
    let mut cache = FontCachedCodepointSupportInfo::new();
    let font = [1u32, 2, 3];
    assert!(cache.unknown_has_codepoint(&font, 2, 0, 0));
    assert!(!cache.unknown_has_codepoint(&font, 5, 1, 0));
    // Both answers are now cached.
    assert!(cache.has_codepoint(&[], 2));
    assert!(!cache.has_codepoint(&[5u32], 5));
}

#[test]
fn full_supported_list_keeps_its_smallest_entries() {
    let mut cache = FontCachedCodepointSupportInfo::new();
    let font: Vec<u32> = (0..600).collect();
    for c in 0..FontCachedCodepointSupportInfo::SUPPORTED_MAX_SZ as u32 {
        assert!(cache.has_codepoint(&font, c));
    }
    // 599 lies past the full list: it is answered but not kept, so a font
    // without it is then consulted.
    assert!(cache.has_codepoint(&font, 599));
    assert!(!cache.has_codepoint(&[], 599));
    // 0 is kept.
    assert!(cache.has_codepoint(&[], 0));
}

#[test]
fn search_sorted_finds_or_places() {
    let v = vec![2u32, 4, 6, 8];
    assert_eq!(search_sorted(&v, 6), Ok(2));
    assert_eq!(search_sorted(&v, 5), Err(2));
    assert_eq!(search_sorted(&v, 1), Err(0));
    assert_eq!(search_sorted(&v, 9), Err(4));
    assert_eq!(search_sorted(&Vec::new(), 3), Err(0));
}

#[test]
fn slice_contains_scans_all() {
    assert!(slice_contains(&[5u32, 1, 9], 9));
    assert!(!slice_contains(&[5u32, 1, 9], 2));
    assert!(!slice_contains(&[], 0));
}

#[test]
fn position_past_the_limit_records_nothing() {
    let mut cache = FontCachedCodepointSupportInfo::new();
    let font = [1u32, 2, 3];
    assert!(cache.unknown_has_codepoint(&font, 3, 512, 0));
    assert!(!cache.has_codepoint(&[], 3));
    assert!(!cache.unknown_has_codepoint(&font, 9, 0, 1024));
    assert!(cache.has_codepoint(&[9u32], 9));
}
