//! Font matching, monospace fallback ranking and glyph-coverage caching for
//! text layout, with the layout configuration enums.

pub mod font;
pub mod layout;

pub use font::attrs::{FontFamily, FontMatchAttrs, FontStretch, FontStyle};
pub use font::codepoint_cache::FontCachedCodepointSupportInfo;
pub use font::font_id::FontId;
pub use font::match_key::{FaceSummary, FontMatchKey};
pub use font::monospace::{LoadedFont, MonoFontMatches, MonospaceFallbackInfo};
pub use font::system::FontSystem;
pub use layout::{Align, Hinting, Wrap};
