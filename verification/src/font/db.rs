use vstd::prelude::*;

use crate::font::attrs::{FontFamily, FontStretch, FontStyle, family_view};
use crate::font::font_id::decimal_text;
use skrifa::raw::TableProvider;

verus! {

#[verifier::external_type_specification]
#[verifier::external_body]
pub struct ExFontdbDatabase(fontdb::Database);

#[verifier::external_type_specification]
#[verifier::external_body]
pub struct ExFontdbId(fontdb::ID);

/// Whether `needle` occurs as a contiguous run of characters in `haystack`.
pub open spec fn contains_run(haystack: Seq<char>, needle: Seq<char>) -> bool {
    exists|i: int|
        0 <= i && i + needle.len() <= haystack.len() && #[trigger] haystack.subrange(
            i,
            i + needle.len(),
        ) == needle
}

/// The characters of a string, in order.
pub(crate) fn chars_of(s: &str) -> (r: Vec<char>)
    ensures
        r@ == s@,
{
    let ghost text = s@;
    let mut v: Vec<char> = Vec::new();
    for c in it: s.chars()
        invariant
            it.seq() == text,
            v@ == text.take(it.index()),
    {
        proof {
            assert(text.take(it.index() + 1) =~= text.take(it.index()).push(c));
        }
        v.push(c);
    }
    assert(text.take(text.len() as int) =~= text);
    v
}

/// Whether `needle` occurs as a contiguous run of characters in
/// `haystack`.
pub fn str_contains(haystack: &str, needle: &str) -> (r: bool)
    ensures
        r == contains_run(haystack@, needle@),
{
    let h = chars_of(haystack);
    let n = chars_of(needle);
    if n.len() > h.len() {
        return false;
    }
    let last: usize = h.len() - n.len();
    let mut i: usize = 0;
    while i <= last
        invariant
            h@ == haystack@,
            n@ == needle@,
            last == h@.len() - n@.len(),
            n@.len() <= h@.len(),
            h@.len() <= usize::MAX,
            0 <= i <= last,
            forall|j: int| 0 <= j < i ==> #[trigger] h@.subrange(j, j + n@.len()) != n@,
        decreases last + 1 - i,
    {
        let mut k: usize = 0;
        let mut same = true;
        while k < n.len()
            invariant
                h@ == haystack@,
                n@ == needle@,
                last == h@.len() - n@.len(),
                n@.len() <= h@.len(),
                h@.len() <= usize::MAX,
                i <= last,
                0 <= k <= n@.len(),
                same ==> forall|t: int| 0 <= t < k ==> h@[i + t] == n@[t],
                !same ==> exists|t: int| 0 <= t < n@.len() && h@[i + t] != n@[t],
            decreases n@.len() - k,
        {
            if h[i + k] != n[k] {
                same = false;
            }
            k = k + 1;
        }
        if same {
            assert(h@.subrange(i as int, i + n@.len()) =~= n@);
            return true;
        }
        proof {
            let t = choose|t: int| 0 <= t < n@.len() && h@[i + t] != n@[t];
            assert(h@.subrange(i as int, i + n@.len())[t] != n@[t]);
        }
        if i == last {
            return false;
        }
        i = i + 1;
    }
    false
}

/// std's `Arc::clone`: another pointer to the same allocation, so the
/// same value.
#[verifier::external_body]
pub(crate) fn share<T>(a: &std::sync::Arc<T>) -> (r: std::sync::Arc<T>)
    ensures
        r == *a,
{
    std::sync::Arc::clone(a)
}

#[verifier::external_type_specification]
#[verifier::external_body]
pub struct ExFontdbFamily<'a>(fontdb::Family<'a>);

#[verifier::external_type_specification]
#[verifier::external_body]
pub struct ExFontdbStretch(fontdb::Stretch);

#[verifier::external_type_specification]
#[verifier::external_body]
pub struct ExFontdbStyle(fontdb::Style);

/// The `fontdb::Family` for a family.
#[verifier::external_body]
fn to_fontdb_family<'a>(family: &'a FontFamily) -> fontdb::Family<'a> {
    match family {
        FontFamily::Name(n) => fontdb::Family::Name(n.as_str()),
        FontFamily::Serif => fontdb::Family::Serif,
        FontFamily::SansSerif => fontdb::Family::SansSerif,
        FontFamily::Cursive => fontdb::Family::Cursive,
        FontFamily::Fantasy => fontdb::Family::Fantasy,
        FontFamily::Monospace => fontdb::Family::Monospace,
    }
}

/// The `fontdb::Stretch` for a stretch.
#[verifier::external_body]
fn to_fontdb_stretch(stretch: FontStretch) -> fontdb::Stretch {
    match stretch {
        FontStretch::UltraCondensed => fontdb::Stretch::UltraCondensed,
        FontStretch::ExtraCondensed => fontdb::Stretch::ExtraCondensed,
        FontStretch::Condensed => fontdb::Stretch::Condensed,
        FontStretch::SemiCondensed => fontdb::Stretch::SemiCondensed,
        FontStretch::Normal => fontdb::Stretch::Normal,
        FontStretch::SemiExpanded => fontdb::Stretch::SemiExpanded,
        FontStretch::Expanded => fontdb::Stretch::Expanded,
        FontStretch::ExtraExpanded => fontdb::Stretch::ExtraExpanded,
        FontStretch::UltraExpanded => fontdb::Stretch::UltraExpanded,
    }
}

/// The `fontdb::Style` for a style.
#[verifier::external_body]
fn to_fontdb_style(style: FontStyle) -> fontdb::Style {
    match style {
        FontStyle::Normal => fontdb::Style::Normal,
        FontStyle::Italic => fontdb::Style::Italic,
        FontStyle::Oblique => fontdb::Style::Oblique,
    }
}

/// What font matching and monospace detection read of a face of the
/// database: the text its ID displays as, its PostScript name, its family
/// names in order, its style, its weight, its stretch's number (1 to 9)
/// and whether it is marked monospaced.
pub type FaceView = (Seq<char>, Seq<char>, Seq<Seq<char>>, FontStyle, u16, u16, bool);

/// The faces a database holds, in its storage order (the order in which
/// `fontdb::Database::faces` yields them), each as a [`FaceView`].
pub uninterp spec fn database_contents(db: fontdb::Database) -> Seq<(Seq<char>, Seq<char>, Seq<Seq<char>>, FontStyle, u16, u16, bool)>;

/// The family names a database resolves the generic families to: serif,
/// sans-serif, cursive, fantasy and monospace, in that order.
pub uninterp spec fn database_generic_families(db: fontdb::Database) -> (Seq<char>, Seq<char>, Seq<char>, Seq<char>, Seq<char>);

/// The position, among `faces`, of the face that fontdb's CSS-like query
/// (`fontdb::Database::query` with one family) picks for a family name,
/// weight, stretch number and style.
pub uninterp spec fn database_best_face(faces: Seq<(Seq<char>, Seq<char>, Seq<Seq<char>>, FontStyle, u16, u16, bool)>, family_name: Seq<char>, weight: u16, stretch: u16, style: FontStyle) -> Option<int>;

/// A face as the library reads it from the database.
#[derive(Debug)]
pub struct FaceRecord {
    /// The face's ID in the database.
    pub raw: fontdb::ID,
    /// The decimal text the ID displays as.
    pub id_text: String,
    pub post_script_name: String,
    /// The face's family names, in order.
    pub families: Vec<String>,
    pub style: FontStyle,
    pub weight: u16,
    /// The stretch's number, from 1 (ultra-condensed) to 9 (ultra-expanded).
    pub stretch: u16,
    pub monospaced: bool,
}

/// The view of a face record.
pub open spec fn record_view(r: FaceRecord) -> FaceView {
    (
        r.id_text@,
        r.post_script_name@,
        r.families@.map_values(|n: String| n@),
        r.style,
        r.weight,
        r.stretch,
        r.monospaced,
    )
}

/// Whether a list of family names holds `name`.
pub open spec fn lists_family(families: Seq<Seq<char>>, name: Seq<char>) -> bool {
    exists|i: int| 0 <= i < families.len() && #[trigger] families[i] == name
}

/// The name a family resolves to: a family name itself, or the name the
/// generic families are configured with.
pub open spec fn resolve_family(
    family: (int, Seq<char>),
    generics: (Seq<char>, Seq<char>, Seq<char>, Seq<char>, Seq<char>),
) -> Seq<char> {
    if family.0 == 1 {
        generics.0
    } else if family.0 == 2 {
        generics.1
    } else if family.0 == 3 {
        generics.2
    } else if family.0 == 4 {
        generics.3
    } else if family.0 == 5 {
        generics.4
    } else {
        family.1
    }
}

/// Whether `text` is the decimal text of a `u64`.
pub open spec fn is_u64_text(text: Seq<char>) -> bool {
    exists|v: u64| #[trigger] decimal_text(v as nat) == text
}

/// `fontdb::Database::faces`, each face read into a record, in storage
/// order. fontdb gives every face the slot key it is stored under as its
/// ID, and displays an ID as the decimal text of the key's `u64` ffi
/// value; slot keys of one map differ, and so do their ffi values.
#[verifier::external_body]
pub(crate) fn database_faces(db: &fontdb::Database) -> (r: Vec<FaceRecord>)
    ensures
        r@.len() == database_contents(*db).len(),
        forall|i: int| 0 <= i < r@.len() ==> record_view(#[trigger] r@[i]) == database_contents(*db)[i],
        forall|i: int| 0 <= i < r@.len() ==> is_u64_text(#[trigger] r@[i].id_text@),
        forall|i: int, j: int| 0 <= i < j < r@.len() ==> #[trigger] r@[i].id_text@ != #[trigger] r@[j].id_text@,
        forall|i: int| 0 <= i < r@.len() ==> 1 <= #[trigger] r@[i].stretch <= 9,
{
    db.faces().map(|f| FaceRecord {
        raw: f.id, id_text: format!("{}", f.id), post_script_name: f.post_script_name.clone(),
        families: f.families.iter().map(|n| n.0.clone()).collect(),
        style: match f.style {
            fontdb::Style::Normal => FontStyle::Normal,
            fontdb::Style::Italic => FontStyle::Italic,
            fontdb::Style::Oblique => FontStyle::Oblique,
        },
        weight: f.weight.0, stretch: f.stretch.to_number(), monospaced: f.monospaced,
    }).collect()
}

/// `fontdb::Database::family_name`: for a family name, that name itself;
/// for a generic family, the name the database is configured with.
#[verifier::external_body]
pub(crate) fn database_family_name(db: &fontdb::Database, family: &FontFamily) -> (r: String)
    ensures
        r@ == resolve_family(family_view(family), database_generic_families(*db)),
{
    db.family_name(&to_fontdb_family(family)).to_string()
}

/// `fontdb::Database::query` for one family with a weight, stretch and
/// style: the ID text of the face it picks. fontdb looks only at the faces
/// that list the family's resolved name, and picks one of them whenever
/// there is any.
#[verifier::external_body]
pub(crate) fn query_database(
    db: &fontdb::Database,
    family: &FontFamily,
    weight: u16,
    stretch: FontStretch,
    style: FontStyle,
) -> (r: Option<String>)
    ensures
        ({
            let faces = database_contents(*db);
            let name = resolve_family(family_view(family), database_generic_families(*db));
            match database_best_face(faces, name, weight, stretch.spec_number(), style) {
                Some(i) => {
                    &&& 0 <= i < faces.len()
                    &&& lists_family(faces[i].2, name)
                    &&& r matches Some(t) && t@ == faces[i].0
                },
                None => r is None && forall|i: int|
                    0 <= i < faces.len() ==> !lists_family(#[trigger] faces[i].2, name),
            }
        }),
{
    let q = fontdb::Query {
        families: &[to_fontdb_family(family)],
        weight: fontdb::Weight(weight),
        stretch: to_fontdb_stretch(stretch),
        style: to_fontdb_style(style),
    };
    db.query(&q).map(|id| format!("{}", id))
}

/// The OpenType script tags of a face: those of its GPOS script list, then
/// those of its GSUB script list, as skrifa reads them from the face's data
/// (`fontdb::Database::with_face_data`); none where the data cannot be had
/// or parsed, or either table or script list is missing. The data may be
/// read from a file, so nothing is stated of the tags.
#[verifier::external_body]
pub(crate) fn face_script_tags(db: &fontdb::Database, id: fontdb::ID) -> Vec<[u8; 4]> {
    db.with_face_data(id, |data, index| {
        let face = skrifa::FontRef::from_index(data, index).ok()?;
        let gpos = face.gpos().ok()?.script_list().ok()?;
        let gsub = face.gsub().ok()?.script_list().ok()?;
        let records = gpos.script_records().iter().chain(gsub.script_records().iter());
        Some(records.map(|r| r.script_tag().into_bytes()).collect())
    }).flatten().unwrap_or_default()
}

/// `fontdb::Database::set_monospace_family`: the faces stay, and the
/// monospace family resolves to `family` from then on.
#[verifier::external_body]
pub(crate) fn set_monospace_family(db: &mut fontdb::Database, family: &str)
    ensures
        database_contents(*final(db)) == database_contents(*old(db)),
        database_generic_families(*final(db)) == ({
            let g = database_generic_families(*old(db));
            (g.0, g.1, g.2, g.3, family@)
        }),
{
    db.set_monospace_family(family)
}

/// `fontdb::Database::set_sans_serif_family`: the faces stay, and the
/// sans-serif family resolves to `family` from then on.
#[verifier::external_body]
pub(crate) fn set_sans_serif_family(db: &mut fontdb::Database, family: &str)
    ensures
        database_contents(*final(db)) == database_contents(*old(db)),
        database_generic_families(*final(db)) == ({
            let g = database_generic_families(*old(db));
            (g.0, family@, g.2, g.3, g.4)
        }),
{
    db.set_sans_serif_family(family)
}

/// `fontdb::Database::set_serif_family`: the faces stay, and the serif
/// family resolves to `family` from then on.
#[verifier::external_body]
pub(crate) fn set_serif_family(db: &mut fontdb::Database, family: &str)
    ensures
        database_contents(*final(db)) == database_contents(*old(db)),
        database_generic_families(*final(db)) == ({
            let g = database_generic_families(*old(db));
            (family@, g.1, g.2, g.3, g.4)
        }),
{
    db.set_serif_family(family)
}

} // verus!
