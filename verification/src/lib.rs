//! Incremental rendering of Markdown documents into self-contained HTML.
//!
//! The library holds the verified core of the pipeline: deciding which
//! documents are stale, deriving artifact paths, converting Markdown to
//! HTML, and rewriting image elements into embedded base64 data URIs.
//! All file and directory I/O stays with the caller, which hands the
//! library plain values (paths as strings, timestamps as integers, image
//! bytes as vectors) and writes the rendered output back to disk.

use vstd::prelude::*;

mod paths;
mod render;
mod staleness;
mod text;

pub use paths::entries_view;
pub use paths::extension_of;
pub use paths::html_counterpart;
pub use paths::html_counterpart_spec;
pub use paths::is_markdown_file;
pub use paths::is_markdown_path;
pub use paths::last_pos;
pub use paths::markdown_selection;
pub use paths::paths_view;
pub use paths::mime_for_path;
pub use paths::mime_of;
pub use paths::select_markdown_files;
pub use render::base64_of;
pub use render::build_data_image_element;
pub use render::comrak_html_of;
pub use render::data_image_element;
pub use render::data_view;
pub use render::find_image_tags;
pub use render::image_tags_from;
pub use render::inline_all;
pub use render::inline_images;
pub use render::inline_step;
pub use render::lemma_inlining_preserves_nonempty;
pub use render::lemma_missing_images_leave_html_unchanged;
pub use render::lemma_rendering_idempotent;
pub use render::lemma_stages_compose;
pub use render::render_markdown;
pub use render::rendered_document;
pub use render::tags_view;
pub use render::ImageTag;
pub use staleness::needs_regeneration;
pub use staleness::regeneration_needed;
pub use text::find_from;
pub use text::find_from_spec;
pub use text::found_at;
pub use text::matches_at;
pub use text::replace_all;
pub use text::replace_all_spec;

verus! {

/// The rendering pipeline, exposed to a host as a named capability.
pub struct MarkdownRenderingPlugin;

impl MarkdownRenderingPlugin {
    /// Human-readable name of this capability, fixed.
    pub fn get_name(&self) -> (r: &'static str)
        ensures
            r@ == "Markdown rendering"@,
    {
        "Markdown rendering"
    }

    /// Version string of this capability, fixed.
    pub fn get_version(&self) -> (r: &'static str)
        ensures
            r@ == "0.1.0"@,
    {
        "0.1.0"
    }
}

} // verus!
