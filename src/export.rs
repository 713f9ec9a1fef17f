//! The conversion of one note: images pulled out and the files to write laid
//! out, then, from the converter's Markdown, split titles repaired.

use vstd::prelude::*;
use crate::headings::{h1_open_tag, repair_headings, repaired_markdown};
use crate::html::{h1_texts, h1_texts_of, img_src_attrs, img_srcs_of};
use crate::images::{
    decode_images, decoded_images, files_view, image_plan, plan_images, DecodeOutcome,
    ExportError, ImageFile,
};
use crate::note::{get_note_path, join_path, note_dir, path_join, ExportConfig, Note};
use crate::text::{chars_of, contains_chars};

verus! {

/// A note's HTML with its inline images replaced by references to files, and
/// those files.
pub struct ExtractedImages {
    pub html: String,
    pub images: Vec<ImageFile>,
}

/// Pulls the inline base64 images out of `html`: each becomes a file named
/// `attachment-NNN.<ext>`, and the HTML refers to it, in an `attachments`
/// folder when `use_attachments` is set. Fails on an image whose payload is
/// not valid base64.
pub fn extract_images(html: &str, use_attachments: bool) -> (r: Result<ExtractedImages, ExportError>)
    ensures
        ({
            let plan = image_plan(html@, img_srcs_of(html@), use_attachments);
            &&& r is Ok <==> decoded_images(plan.2) is Ok
            &&& r matches Ok(e) ==> e.html@ == plan.0 && decoded_images(plan.2)
                == DecodeOutcome::Ok(files_view(e.images@))
            &&& r matches Err(ExportError::ImageDecode { file_name }) ==> decoded_images(plan.2)
                == DecodeOutcome::Err(file_name@)
        }),
{
    let srcs = img_src_attrs(html);
    let plan = plan_images(html, &srcs, use_attachments);
    match decode_images(&plan.images) {
        Ok(images) => Ok(ExtractedImages { html: plan.html, images }),
        Err(e) => Err(e),
    }
}

/// `attachments`, the folder for images beside a note.
pub open spec fn attachments_folder() -> Seq<char> {
    seq!['a', 't', 't', 'a', 'c', 'h', 'm', 'e', 'n', 't', 's']
}

/// The directory a note's images are written to.
pub open spec fn attachments_dir_of(note: Note, config: ExportConfig) -> Seq<char> {
    if config.use_attachments {
        path_join(note_dir(note, config), attachments_folder())
    } else {
        note_dir(note, config)
    }
}

/// Everything to write for one note.
pub struct ProcessedNote {
    /// The HTML with inline images replaced by references to their files.
    pub html: String,
    /// The directory that the images go to.
    pub attachments_dir: String,
    /// The images, by file name within `attachments_dir`.
    pub images: Vec<ImageFile>,
}

/// Prepares one note: pulls out its inline images and rewrites its HTML to
/// refer to their files. Fails where an image payload is not valid base64.
/// The rewritten HTML is then converted to Markdown, and `note_markdown`
/// finishes that Markdown.
pub fn process_note(note: &Note, config: &ExportConfig) -> (r: Result<ProcessedNote, ExportError>)
    ensures
        ({
            let plan = image_plan(note.content@, img_srcs_of(note.content@), config.use_attachments);
            &&& r is Ok <==> decoded_images(plan.2) is Ok
            &&& r matches Ok(p) ==> {
                &&& p.html@ == plan.0
                &&& decoded_images(plan.2) == DecodeOutcome::Ok(files_view(p.images@))
                &&& p.attachments_dir@ == attachments_dir_of(*note, *config)
            }
            &&& r matches Err(ExportError::ImageDecode { file_name }) ==> decoded_images(plan.2)
                == DecodeOutcome::Err(file_name@)
        }),
{
    let dir = get_note_path(note, config);
    let attachments_dir = if config.use_attachments {
        let r = join_path(dir.as_str(), "attachments");
        proof {
            reveal_strlit("attachments");
        }
        assert(r@ == attachments_dir_of(*note, *config));
        r
    } else {
        dir
    };
    let extracted = match extract_images(note.content.as_str(), config.use_attachments) {
        Ok(e) => e,
        Err(e) => return Err(e),
    };
    Ok(ProcessedNote { html: extracted.html, attachments_dir, images: extracted.images })
}

/// The Markdown of a note: `converted`, the converter's Markdown of `html`
/// (the note's HTML after image rewriting), with split titles repaired;
/// `original_html` is the note's HTML as it came. See `repaired_markdown`.
pub fn note_markdown(original_html: &str, html: &str, converted: &str) -> (r: String)
    ensures
        r@ == repaired_markdown(original_html@, h1_texts_of(html@), converted@),
{
    let tag = vec!['<', 'h', '1', '>'];
    let texts = if contains_chars(&chars_of(original_html), &tag) {
        h1_texts(html)
    } else {
        Vec::new()
    };
    proof {
        assert(tag@ == h1_open_tag());
    }
    repair_headings(original_html, &texts, converted)
}

} // verus!
