use vstd::prelude::*;

verus! {

/// Wrapping mode
#[derive(Debug, Eq, PartialEq, Clone, Copy, Structural)]
pub enum Wrap {
    /// No wrapping
    NoWrap,
    /// Wraps at a glyph level
    Glyph,
    /// Wraps at the word level
    Word,
    /// Wraps at the word level, or fallback to glyph level if a word can't fit on a line by itself
    WordOrGlyph,
}

impl Wrap {
    /// The human-readable name of the wrapping mode.
    pub open spec fn spec_label(self) -> Seq<char> {
        match self {
            Wrap::NoWrap => "No Wrap"@,
            Wrap::Word => "Word Wrap"@,
            Wrap::WordOrGlyph => "Word Wrap or Character"@,
            Wrap::Glyph => "Character"@,
        }
    }

    /// The text the mode is displayed as.
    pub fn to_string(&self) -> (s: String)
        ensures
            s@ == self.spec_label(),
    {
        match self {
            Wrap::NoWrap => "No Wrap".to_owned(),
            Wrap::Word => "Word Wrap".to_owned(),
            Wrap::WordOrGlyph => "Word Wrap or Character".to_owned(),
            Wrap::Glyph => "Character".to_owned(),
        }
    }
}

/// Align or justify
#[derive(Debug, Eq, PartialEq, Clone, Copy, Structural)]
pub enum Align {
    Left,
    Right,
    Center,
    Justified,
    End,
}

impl Align {
    /// The human-readable name of the alignment.
    pub open spec fn spec_label(self) -> Seq<char> {
        match self {
            Align::Left => "Left"@,
            Align::Right => "Right"@,
            Align::Center => "Center"@,
            Align::Justified => "Justified"@,
            Align::End => "End"@,
        }
    }

    /// The text the alignment is displayed as.
    pub fn to_string(&self) -> (s: String)
        ensures
            s@ == self.spec_label(),
    {
        match self {
            Align::Left => "Left".to_owned(),
            Align::Right => "Right".to_owned(),
            Align::Center => "Center".to_owned(),
            Align::Justified => "Justified".to_owned(),
            Align::End => "End".to_owned(),
        }
    }
}

/// Metrics hinting strategy
#[derive(Debug, Eq, PartialEq, Clone, Copy, Structural)]
pub enum Hinting {
    /// No metrics hinting.
    ///
    /// Glyphs will have subpixel coordinates.
    ///
    /// This is the default.
    Disabled,
    /// Metrics hinting.
    ///
    /// Glyphs will be snapped to integral coordinates in the X-axis during layout.
    /// This can improve readability for smaller text and/or low-DPI screens.
    ///
    /// However, in order to get the right effect, you must use physical coordinates
    /// during layout and avoid further scaling when rendering. Otherwise, the rounding
    /// errors can accumulate and glyph distances may look erratic.
    ///
    /// In other words, metrics hinting makes layouting dependent of the target
    /// resolution.
    Enabled,
}

impl Default for Hinting {
    fn default() -> (h: Self)
        ensures
            h == Hinting::Disabled,
    {
        Hinting::Disabled
    }
}

} // verus!
