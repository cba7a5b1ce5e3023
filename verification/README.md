# cosmic_text_fonts

Font matching and monospace fallback for text layout, verified with Verus.

- `src/font/codepoint_cache.rs`: the per-font cache of which codepoints a
  font supports (two sorted, bounded lists searched by bisection).
- `src/font/system.rs`: `FontSystem`, which holds a `fontdb` database, the
  sorted monospace face IDs and the match, monospace-match, ranking and
  codepoint caches.
- `src/font/model.rs`: what font matching and monospace selection give for a
  database's faces, as spec functions over the faces' views, with the
  lemmas that make match lists unique.
- `src/font/match_key.rs`, `src/font/monospace.rs`: match keys, their order,
  and the monospace fallback candidates and rankings.
- `src/font/font_id.rs`, `src/font/ids.rs`, `src/font/order.rs`: face IDs with
  their ordering keys, sorted ID lists, and sorting by rank.
- `src/font/db.rs`: the calls into `fontdb`, `skrifa` and std that the
  verified code relies on, with what is assumed of each.
- `src/layout.rs`: the wrapping, alignment and hinting modes.
- `app/`: loading system fonts, reading the locale and variable weight axes
  (floating point, read from a copy of the database), the text forms of the layout enums, and ellipsizing
  settings.
