//! A verified core for HWP page numbering, master-page serialization and the text
//! post-processing that prepares rendered SVG pages for PDF conversion.
pub mod text;
pub mod model;
pub mod errors;
pub mod page_format;
pub mod page_numbering;
pub mod footer_align;
pub mod decimal;
pub mod svg_runs;
pub mod font_fallback;
pub mod master_page;
pub mod glyph_overlap;
pub mod glyph_metrics;
pub mod pdf_export;
