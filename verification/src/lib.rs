//! A library that turns images into coloured glyph grids, steps through them
//! with a memoizing cursor, reveals each one once in a random order, and
//! persists them in a plain-text artifact format.

pub mod converter;
pub mod downloader;
pub mod image_storage;
pub mod logger;
pub mod printer;
pub mod text;
