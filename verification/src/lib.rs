//! Baboon's editor logic: the tag browser, the Blam! import panel, the Chimp
//! package header model and its edits, package classification, level-export
//! bookkeeping, and the extraction rules.

pub mod audio;
pub mod blam;
pub mod browser;
pub mod cache_import;
pub mod extract;
pub mod header;
pub mod icons;
pub mod json_text;
pub mod level;
pub mod names;
pub mod order;
pub mod package;
pub mod text;
pub mod texture;
pub mod usage;
