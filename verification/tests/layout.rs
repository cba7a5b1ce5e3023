use cosmic_text_fonts::{Align, Hinting, Wrap};

#[test]
fn wrap_labels() {
    assert_eq!(Wrap::NoWrap.to_string(), "No Wrap");
    assert_eq!(Wrap::Glyph.to_string(), "Character");
    assert_eq!(Wrap::Word.to_string(), "Word Wrap");
    assert_eq!(Wrap::WordOrGlyph.to_string(), "Word Wrap or Character");
}

#[test]
fn align_labels() {
    assert_eq!(Align::Left.to_string(), "Left");
    assert_eq!(Align::Right.to_string(), "Right");
    assert_eq!(Align::Center.to_string(), "Center");
    assert_eq!(Align::Justified.to_string(), "Justified");
    assert_eq!(Align::End.to_string(), "End");
}

#[test]
fn hinting_defaults_to_disabled() {
    assert_eq!(Hinting::default(), Hinting::Disabled);
}
