use vstd::prelude::*;

verus! {

/// Whether a face is upright, italic or oblique.
#[derive(Debug, Clone, Copy, PartialEq, Eq, Structural)]
pub enum FontStyle {
    /// A face that is neither italic not obliqued.
    Normal,
    /// A form that is generally cursive in nature.
    Italic,
    /// A typically-sloped version of the regular face.
    Oblique,
}

/// How condensed or expanded a face is.
#[derive(Debug, Clone, Copy, PartialEq, Eq, Structural)]
pub enum FontStretch {
    UltraCondensed,
    ExtraCondensed,
    Condensed,
    SemiCondensed,
    Normal,
    SemiExpanded,
    Expanded,
    ExtraExpanded,
    UltraExpanded,
}

impl FontStretch {
    /// The stretch's number, from 1 for ultra-condensed to 9 for
    /// ultra-expanded.
    pub open spec fn spec_number(self) -> u16 {
        match self {
            FontStretch::UltraCondensed => 1,
            FontStretch::ExtraCondensed => 2,
            FontStretch::Condensed => 3,
            FontStretch::SemiCondensed => 4,
            FontStretch::Normal => 5,
            FontStretch::SemiExpanded => 6,
            FontStretch::Expanded => 7,
            FontStretch::ExtraExpanded => 8,
            FontStretch::UltraExpanded => 9,
        }
    }

    /// The stretch's number, from 1 for ultra-condensed to 9 for
    /// ultra-expanded.
    pub fn to_number(self) -> (n: u16)
        ensures
            n == self.spec_number(),
            1 <= n <= 9,
    {
        match self {
            FontStretch::UltraCondensed => 1,
            FontStretch::ExtraCondensed => 2,
            FontStretch::Condensed => 3,
            FontStretch::SemiCondensed => 4,
            FontStretch::Normal => 5,
            FontStretch::SemiExpanded => 6,
            FontStretch::Expanded => 7,
            FontStretch::ExtraExpanded => 8,
            FontStretch::UltraExpanded => 9,
        }
    }
}

/// A font family asked for: a family name, or one of the generic
/// families whose names the font database is configured with.
#[derive(Debug)]
pub enum FontFamily {
    Name(String),
    Serif,
    SansSerif,
    Cursive,
    Fantasy,
    Monospace,
}

/// A family as a mathematical value: the generic family's number (0 for a
/// family name) with the family name's characters.
pub open spec fn family_view(f: &FontFamily) -> (int, Seq<char>) {
    match f {
        FontFamily::Name(n) => (0, n@),
        FontFamily::Serif => (1, Seq::empty()),
        FontFamily::SansSerif => (2, Seq::empty()),
        FontFamily::Cursive => (3, Seq::empty()),
        FontFamily::Fantasy => (4, Seq::empty()),
        FontFamily::Monospace => (5, Seq::empty()),
    }
}

impl FontFamily {
    /// A copy of the family.
    pub fn duplicate(&self) -> (r: Self)
        ensures
            family_view(&r) == family_view(self),
    {
        match self {
            FontFamily::Name(n) => FontFamily::Name(n.clone()),
            FontFamily::Serif => FontFamily::Serif,
            FontFamily::SansSerif => FontFamily::SansSerif,
            FontFamily::Cursive => FontFamily::Cursive,
            FontFamily::Fantasy => FontFamily::Fantasy,
            FontFamily::Monospace => FontFamily::Monospace,
        }
    }

    /// Whether two families are the same.
    pub fn same(&self, other: &Self) -> (r: bool)
        ensures
            r == (family_view(self) == family_view(other)),
    {
        match (self, other) {
            (FontFamily::Name(a), FontFamily::Name(b)) => {
                let r = *a == *b;
                proof {
                    if !r {
                        assert(family_view(self).1 != family_view(other).1);
                    }
                }
                r
            },
            (FontFamily::Serif, FontFamily::Serif) => true,
            (FontFamily::SansSerif, FontFamily::SansSerif) => true,
            (FontFamily::Cursive, FontFamily::Cursive) => true,
            (FontFamily::Fantasy, FontFamily::Fantasy) => true,
            (FontFamily::Monospace, FontFamily::Monospace) => true,
            _ => false,
        }
    }
}

/// The attributes that font matching depends on.
#[derive(Debug)]
pub struct FontMatchAttrs {
    pub family: FontFamily,
    pub weight: u16,
    pub stretch: FontStretch,
    pub style: FontStyle,
}

/// Attributes as a mathematical value.
pub open spec fn attrs_view(a: &FontMatchAttrs) -> ((int, Seq<char>), u16, FontStretch, FontStyle) {
    (family_view(&a.family), a.weight, a.stretch, a.style)
}

impl FontMatchAttrs {
    /// A copy of the attributes.
    pub fn duplicate(&self) -> (r: Self)
        ensures
            attrs_view(&r) == attrs_view(self),
    {
        FontMatchAttrs {
            family: self.family.duplicate(),
            weight: self.weight,
            stretch: self.stretch,
            style: self.style,
        }
    }

    /// Whether two sets of attributes are the same.
    pub fn same(&self, other: &Self) -> (r: bool)
        ensures
            r == (attrs_view(self) == attrs_view(other)),
    {
        self.family.same(&other.family) && self.weight == other.weight && self.stretch
            == other.stretch && self.style == other.style
    }
}

} // verus!
