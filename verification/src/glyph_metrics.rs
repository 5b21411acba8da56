//! Horizontal advances of the PDF fonts (Noto Serif/Sans CJK), read with `ttf_parser` from
//! the font files' bytes. The overlap correction measures glyphs with them.
use vstd::prelude::*;
use crate::text::{chars_of, find, find_in};

verus! {

/// The Noto CJK font files that were found: the serif one and the sans-serif one.
pub struct NotoMetrics {
    pub serif: Option<Vec<u8>>,
    pub sans: Option<Vec<u8>>,
}

/// The units per em of the first face of the font file `data`, `None` when the file does
/// not parse as a font.
pub uninterp spec fn font_units_per_em(data: Seq<u8>) -> Option<u16>;

/// The glyph id that the first face of `data` maps `c` to, `None` when the file does not
/// parse or has no glyph for `c`.
pub uninterp spec fn font_glyph_id(data: Seq<u8>, c: char) -> Option<u16>;

/// The horizontal advance of glyph `gid` in the first face of `data`, `None` when the file
/// does not parse or the advance is unknown.
pub uninterp spec fn font_hor_advance(data: Seq<u8>, gid: u16) -> Option<u16>;

/// `ttf_parser::Face::parse(data, 0)` and then `Face::units_per_em`. The result is a function
/// of the bytes; ttf-parser rejects a `head` table whose units per em lie outside
/// `16..=16384`, so a parsed face always has a value in that range.
#[verifier::external_body]
fn face_units_per_em(data: &[u8]) -> (r: Option<u16>)
    ensures
        r == font_units_per_em(data@),
        r matches Some(u) ==> 16 <= u <= 16384,
{
    match ttf_parser::Face::parse(data, 0) {
        Ok(face) => Some(face.units_per_em()),
        Err(_) => None,
    }
}

/// `ttf_parser::Face::parse(data, 0)` and then `Face::glyph_index(c)`, the glyph id as its
/// number. The result is a function of the bytes and the character.
#[verifier::external_body]
fn face_glyph_id(data: &[u8], c: char) -> (r: Option<u16>)
    ensures
        r == font_glyph_id(data@, c),
{
    match ttf_parser::Face::parse(data, 0) {
        Ok(face) => match face.glyph_index(c) {
            Some(gid) => Some(gid.0),
            None => None,
        },
        Err(_) => None,
    }
}

/// `ttf_parser::Face::parse(data, 0)` and then `Face::glyph_hor_advance(GlyphId(gid))`. The
/// result is a function of the bytes and the glyph id.
#[verifier::external_body]
fn face_hor_advance(data: &[u8], gid: u16) -> (r: Option<u16>)
    ensures
        r == font_hor_advance(data@, gid),
{
    match ttf_parser::Face::parse(data, 0) {
        Ok(face) => face.glyph_hor_advance(ttf_parser::GlyphId(gid)),
        Err(_) => None,
    }
}

/// A glyph's horizontal advance in font units, with the units per em of its font.
#[derive(Clone, Copy, Debug, PartialEq, Eq, Structural)]
pub struct GlyphAdvance {
    pub advance: u16,
    pub units_per_em: u16,
}

pub open spec fn contains(s: Seq<char>, p: Seq<char>) -> bool {
    find(s, p) is Some
}

/// A serif family: one whose name holds `Serif`, `바탕`, `명조` or `Batang`.
pub open spec fn is_serif_family(f: Seq<char>) -> bool {
    ||| contains(f, "Serif"@)
    ||| contains(f, "바탕"@)
    ||| contains(f, "명조"@)
    ||| contains(f, "Batang"@)
}

/// The font a family is measured with: the serif file for a serif family and the sans file
/// otherwise, each falling back to the other one when it is missing.
pub open spec fn metric_font(m: NotoMetrics, family: Seq<char>) -> Option<Seq<u8>> {
    let (first, second) = if is_serif_family(family) {
        (m.serif, m.sans)
    } else {
        (m.sans, m.serif)
    };
    match first {
        Some(d) => Some(d@),
        None => match second {
            Some(d) => Some(d@),
            None => None,
        },
    }
}

/// The advance of `c` in `font`, with the font's units per em; `None` when there is no font,
/// it does not parse, its units per em are 0, or it has no advance for `c`.
pub open spec fn glyph_advance_in(font: Option<Seq<u8>>, c: char) -> Option<GlyphAdvance> {
    match font {
        None => None,
        Some(d) => match font_units_per_em(d) {
            None => None,
            Some(u) => if u == 0 {
                None
            } else {
                match font_glyph_id(d, c) {
                    None => None,
                    Some(g) => match font_hor_advance(d, g) {
                        None => None,
                        Some(a) => Some(GlyphAdvance { advance: a, units_per_em: u }),
                    },
                }
            },
        },
    }
}

fn contains_str(s: &Vec<char>, p: &str) -> (r: bool)
    ensures
        r == contains(s@, p@),
{
    let pv = chars_of(p);
    assert(s@.subrange(0, s@.len() as int) =~= s@);
    find_in(s, &pv, 0, s.len()).is_some()
}

/// Looks up the advance of `c` for a glyph set in `font_family`.
pub fn lookup_glyph_advance(font_family: &str, c: char, fonts: &NotoMetrics) -> (r: Option<GlyphAdvance>)
    ensures
        r == glyph_advance_in(metric_font(*fonts, font_family@), c),
{
    let f = chars_of(font_family);
    let is_serif = contains_str(&f, "Serif") || contains_str(&f, "바탕") || contains_str(&f, "명조")
        || contains_str(&f, "Batang");
    let (first, second) = if is_serif {
        (&fonts.serif, &fonts.sans)
    } else {
        (&fonts.sans, &fonts.serif)
    };
    let data: &Vec<u8> = match first {
        Some(d) => d,
        None => match second {
            Some(d) => d,
            None => {
                return None;
            },
        },
    };
    let upm = match face_units_per_em(data.as_slice()) {
        Some(u) => u,
        None => {
            return None;
        },
    };
    if upm == 0 {
        return None;
    }
    let gid = match face_glyph_id(data.as_slice(), c) {
        Some(g) => g,
        None => {
            return None;
        },
    };
    match face_hor_advance(data.as_slice(), gid) {
        Some(a) => Some(GlyphAdvance { advance: a, units_per_em: upm }),
        None => None,
    }
}

} // verus!
