//! The projections that the library brings along.

pub mod dir_list;
pub mod image_preview;
pub mod text_markdown;
pub mod text_raw;
