//! The values that the extraction and export steps take and give.
use vstd::prelude::*;

verus! {

/// How source files are cleaned.
#[derive(Clone, Copy, Debug)]
pub struct ExtractionConfig {
    pub remove_comments: bool,
    pub compact_lines: bool,
}

/// The extracted source text and its page layout.
#[derive(Clone, Debug)]
pub struct ExtractedCode {
    pub content: String,
    pub line_count: usize,
    pub lines_per_page: usize,
    pub page_count: usize,
}

/// What the exported document is titled with and where it is saved.
#[derive(Clone, Debug)]
pub struct ExportConfig {
    pub software_name: String,
    pub software_version: String,
    pub save_path: String,
}

} // verus!
