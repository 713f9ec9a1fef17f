//! Export of notes to Markdown files: inline images are pulled out into
//! attachment files, split top-level headings are merged into one title, and
//! each note gets a metadata header.
//!
//! The library computes; the caller reads notes in and writes the files out.

pub mod export;
pub mod headings;
pub mod html;
pub mod images;
pub mod note;
pub mod text;

pub use export::{extract_images, note_markdown, process_note, ExtractedImages, ProcessedNote};
pub use images::{ExportError, ImageFile};
pub use note::{get_note_path, html_path, markdown_path, note_document, sanitize_title, ExportConfig, Note};
