# rhwp — verified core

The verified parts of rhwp's page numbering, master-page HWPX output and PDF
post-processing of rendered SVG, written in Verus.

- `src/` — the library, every function verified:
  - `model`, `errors` — the document model and error types;
  - `page_format`, `page_numbering` — page-number formats in master pages and the
    new-number control;
  - `footer_align` — aligning a footer's page-number box with its title box, in the
    model and in the raw control-header records;
  - `master_page` — writing `Contents/masterpage{N}.xml` and reading its attributes;
  - `svg_runs`, `decimal` — merging the glyphs of Latin header runs of an SVG page;
  - `font_fallback`, `glyph_overlap`, `glyph_metrics` — font fallbacks, reading and
    rewriting glyph lines, and glyph advances read with ttf-parser;
  - `pdf_export` — how pages are gathered into a PDF;
  - `text` — sequences of characters: search, replace, trimming, decimals.
- `app/` — what stays outside verification: reading fonts and XML, the floating-point
  geometry of the glyph-overlap correction, and the PDF conversion with usvg, svg2pdf and
  pdf-writer.
- `tests/` — tests of the library.
