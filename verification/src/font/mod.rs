pub mod codepoint_cache;
pub mod order;
pub mod attrs;
pub mod font_id;
pub mod db;
pub mod match_key;
pub mod model;
pub mod monospace;
pub mod ids;
pub mod system;
