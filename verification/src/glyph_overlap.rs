//! The structure of the glyph-overlap correction of rendered SVG: reading a `<text>` line
//! into its position, scale, size, family and text; grouping the glyphs that stand on one
//! baseline; and writing a glyph's new origin back into its line.
//!
//! Where a glyph moves is measured with the advances of the PDF fonts; that arithmetic is
//! done by the caller, which hands back the new origins as text.
use vstd::prelude::*;
use crate::decimal::{all_digits, window_all_digits};
use crate::font_fallback::{decode_xml_entities_chars, decoded_entities, font_family_of, parse_font_family_win};
use crate::svg_runs::{
    all_ws_win, extend_window, lemma_find_win_bounds, lines, lines_from, pat_comma, pat_font_size,
    pat_gt, pat_quote, pat_rparen, pat_scale, pat_sp_x, pat_sp_y, pat_text_close, pat_text_open,
    pat_translate, pat_tspan, strip_cr, trim_win, vec_comma, vec_font_size, vec_gt, vec_quote,
    vec_rparen, vec_scale, vec_sp_x, vec_sp_y, vec_text_close, vec_text_open, vec_translate,
    vec_tspan, win, win_ok, window_vec,
};
use crate::text::{
    chars_of, find, find_in, lemma_rfind_to_bounds, push_char, push_chars, rfind, rfind_in,
    string_of, trim,
};

verus! {

// ---------------------------------------------------------------------------------------
// Which strings `f64::from_str` accepts.

/// An exponent mark, `e` or `E`.
pub open spec fn exp_mark(c: char) -> bool {
    c == 'e' || c == 'E'
}

/// The first exponent mark at or after `i`.
pub open spec fn exp_at_from(b: Seq<char>, i: int) -> Option<int>
    decreases b.len() - i,
{
    if i < 0 || i >= b.len() {
        None
    } else if exp_mark(b[i]) {
        Some(i)
    } else {
        exp_at_from(b, i + 1)
    }
}

/// `Digit+ | Digit+ '.' Digit* | Digit* '.' Digit+`.
pub open spec fn mantissa_ok(m: Seq<char>) -> bool {
    match find(m, seq!['.']) {
        None => m.len() > 0 && all_digits(m),
        Some(p) => all_digits(m.take(p)) && all_digits(m.skip(p + 1)) && m.len() > 1,
    }
}

/// `Sign? Digit+`.
pub open spec fn exponent_ok(e: Seq<char>) -> bool {
    let d = if e.len() > 0 && (e[0] == '+' || e[0] == '-') {
        e.drop_first()
    } else {
        e
    };
    d.len() > 0 && all_digits(d)
}

/// `Number ::= Mantissa Exp?` with `Exp ::= ('e' | 'E') Sign? Digit+`.
pub open spec fn number_ok(b: Seq<char>) -> bool {
    match exp_at_from(b, 0) {
        None => mantissa_ok(b),
        Some(k) => mantissa_ok(b.take(k)) && exponent_ok(b.skip(k + 1)),
    }
}

/// `s` equals the lower-case ASCII word `w`, ignoring the case of its letters.
pub open spec fn eq_ignore_case(s: Seq<char>, w: Seq<char>) -> bool {
    s.len() == w.len() && forall|i: int|
        0 <= i < s.len() ==> (#[trigger] s[i] == w[i] || (s[i] as u32) == (w[i] as u32) - 32)
}

/// The grammar of `f64::from_str`: an optional sign, then `inf`, `infinity` or `nan` in any
/// case, or a decimal number with an optional exponent. No whitespace is accepted.
pub open spec fn float_literal(s: Seq<char>) -> bool {
    let b = if s.len() > 0 && (s[0] == '+' || s[0] == '-') {
        s.drop_first()
    } else {
        s
    };
    ||| eq_ignore_case(b, seq!['i', 'n', 'f'])
    ||| eq_ignore_case(b, seq!['i', 'n', 'f', 'i', 'n', 'i', 't', 'y'])
    ||| eq_ignore_case(b, seq!['n', 'a', 'n'])
    ||| number_ok(b)
}

fn eq_ignore_case_win(s: &Vec<char>, lo: usize, hi: usize, w: &Vec<char>) -> (r: bool)
    requires
        lo <= hi <= s.len(),
        forall|i: int| 0 <= i < w.len() ==> 0x61 <= (#[trigger] w@[i] as u32) <= 0x7a,
    ensures
        r == eq_ignore_case(s@.subrange(lo as int, hi as int), w@),
{
    let ghost sw = s@.subrange(lo as int, hi as int);
    if hi - lo != w.len() {
        return false;
    }
    let mut i: usize = 0;
    while i < w.len()
        invariant
            hi - lo == w.len(),
            lo <= hi <= s.len(),
            i <= w.len(),
            sw == s@.subrange(lo as int, hi as int),
            forall|k: int| 0 <= k < w.len() ==> 0x61 <= (#[trigger] w@[k] as u32) <= 0x7a,
            forall|k: int|
                0 <= k < i ==> (#[trigger] sw[k] == w@[k] || (sw[k] as u32) == (w@[k] as u32) - 32),
        decreases w.len() - i,
    {
        let c = s[lo + i];
        let l = w[i];
        assert(sw[i as int] == c);
        assert(0x61 <= (l as u32) <= 0x7a);
        if !(c == l || (c as u32) == (l as u32) - 32) {
            return false;
        }
        i = i + 1;
    }
    true
}

pub(crate) fn mantissa_ok_win(s: &Vec<char>, lo: usize, hi: usize) -> (r: bool)
    requires
        lo <= hi <= s.len(),
    ensures
        r == mantissa_ok(s@.subrange(lo as int, hi as int)),
{
    let ghost m = s@.subrange(lo as int, hi as int);
    let dot = vec!['.'];
    assert(dot@ =~= seq!['.']);
    match find_in(s, &dot, lo, hi) {
        None => hi > lo && window_all_digits(s, lo, hi),
        Some(p) => {
            proof {
                lemma_find_win_bounds(s@, dot@, lo as int, hi as int);
            }
            assert(s@.subrange(lo as int, p as int) =~= m.take(p - lo));
            assert(s@.subrange(p + 1, hi as int) =~= m.skip(p - lo + 1));
            window_all_digits(s, lo, p) && window_all_digits(s, p + 1, hi) && hi - lo > 1
        },
    }
}

pub(crate) fn exponent_ok_win(s: &Vec<char>, lo: usize, hi: usize) -> (r: bool)
    requires
        lo <= hi <= s.len(),
    ensures
        r == exponent_ok(s@.subrange(lo as int, hi as int)),
{
    let ghost e = s@.subrange(lo as int, hi as int);
    let d = if lo < hi && (s[lo] == '+' || s[lo] == '-') {
        lo + 1
    } else {
        lo
    };
    assert(e.len() > 0 ==> e[0] == s@[lo as int]);
    assert(e.len() > 0 ==> e.drop_first() =~= s@.subrange(lo + 1, hi as int));
    hi > d && window_all_digits(s, d, hi)
}

/// The index of the first exponent mark in `s[lo..hi]`, if there is one.
pub(crate) fn exp_mark_win(s: &Vec<char>, lo: usize, hi: usize) -> (r: Option<usize>)
    requires
        lo <= hi <= s.len(),
    ensures
        match exp_at_from(s@.subrange(lo as int, hi as int), 0) {
            Some(k) => r == Some((lo + k) as usize) && lo + k < hi,
            None => r is None,
        },
{
    let ghost b = s@.subrange(lo as int, hi as int);
    let mut i = lo;
    while i < hi && !(s[i] == 'e' || s[i] == 'E')
        invariant
            lo <= i <= hi <= s.len(),
            b == s@.subrange(lo as int, hi as int),
            exp_at_from(b, i - lo) == exp_at_from(b, 0),
        decreases hi - i,
    {
        assert(b[i - lo] == s@[i as int]);
        i = i + 1;
    }
    if i == hi {
        None
    } else {
        assert(b[i - lo] == s@[i as int]);
        Some(i)
    }
}

fn number_ok_win(s: &Vec<char>, lo: usize, hi: usize) -> (r: bool)
    requires
        lo <= hi <= s.len(),
    ensures
        r == number_ok(s@.subrange(lo as int, hi as int)),
{
    let ghost b = s@.subrange(lo as int, hi as int);
    let mut i = lo;
    while i < hi && !(s[i] == 'e' || s[i] == 'E')
        invariant
            lo <= i <= hi <= s.len(),
            b == s@.subrange(lo as int, hi as int),
            exp_at_from(b, i - lo) == exp_at_from(b, 0),
        decreases hi - i,
    {
        assert(b[i - lo] == s@[i as int]);
        i = i + 1;
    }
    if i == hi {
        assert(exp_at_from(b, i - lo) is None);
        mantissa_ok_win(s, lo, hi)
    } else {
        assert(b[i - lo] == s@[i as int]);
        assert(exp_at_from(b, 0) == Some((i - lo) as int));
        assert(s@.subrange(lo as int, i as int) =~= b.take(i - lo));
        assert(s@.subrange(i + 1, hi as int) =~= b.skip(i - lo + 1));
        mantissa_ok_win(s, lo, i) && exponent_ok_win(s, i + 1, hi)
    }
}

/// Whether `s[lo..hi]` is a number that `f64::from_str` accepts.
pub fn float_literal_win(s: &Vec<char>, lo: usize, hi: usize) -> (r: bool)
    requires
        lo <= hi <= s.len(),
    ensures
        r == float_literal(s@.subrange(lo as int, hi as int)),
{
    let ghost w = s@.subrange(lo as int, hi as int);
    let b = if lo < hi && (s[lo] == '+' || s[lo] == '-') {
        lo + 1
    } else {
        lo
    };
    assert(w.len() > 0 ==> w[0] == s@[lo as int]);
    assert(w.len() > 0 ==> w.drop_first() =~= s@.subrange(lo + 1, hi as int));
    let inf = vec!['i', 'n', 'f'];
    let infinity = vec!['i', 'n', 'f', 'i', 'n', 'i', 't', 'y'];
    let nan = vec!['n', 'a', 'n'];
    assert(inf@ =~= seq!['i', 'n', 'f']);
    assert(infinity@ =~= seq!['i', 'n', 'f', 'i', 'n', 'i', 't', 'y']);
    assert(nan@ =~= seq!['n', 'a', 'n']);
    eq_ignore_case_win(s, b, hi, &inf) || eq_ignore_case_win(s, b, hi, &infinity)
        || eq_ignore_case_win(s, b, hi, &nan) || number_ok_win(s, b, hi)
}

// ---------------------------------------------------------------------------------------
// Reading one `<text>` line.

/// Where a glyph stands: the `translate(X,Y) scale(S,...)` form or the `x="X" y="Y"` form,
/// the texts of `X` and `Y`, and of `S` when a scale is written.
pub ghost struct GlyphPos {
    pub is_transform: bool,
    pub x: Seq<char>,
    pub y: Seq<char>,
    pub ratio: Option<Seq<char>>,
}

/// The `scale(` after the translation that ends at `ie`: its first argument runs to the
/// next `,`, or else to the next `)`.
pub open spec fn glyph_tf_ratio(o: Seq<char>, ie: int, x: Seq<char>, y: Seq<char>) -> Option<GlyphPos> {
    match find(o.skip(ie), pat_scale()) {
        None => Some(GlyphPos { is_transform: true, x, y, ratio: None }),
        Some(sp) => {
            let ss = ie + sp + pat_scale().len();
            let se = match find(o.skip(ss), pat_comma()) {
                Some(k) => Some(ss + k),
                None => match find(o.skip(ss), pat_rparen()) {
                    Some(k) => Some(ss + k),
                    None => None,
                },
            };
            match se {
                None => None,
                Some(se) => Some(
                    GlyphPos { is_transform: true, x, y, ratio: Some(trim(o.subrange(ss, se))) },
                ),
            }
        },
    }
}

/// The coordinates `X,Y` of the translation stand in `o[is..ie]`; `X` must be a number.
pub open spec fn glyph_tf_coords(o: Seq<char>, is: int, ie: int) -> Option<GlyphPos> {
    let coords = o.subrange(is, ie);
    match find(coords, pat_comma()) {
        None => None,
        Some(c) => {
            let x = trim(coords.take(c));
            if float_literal(x) {
                glyph_tf_ratio(o, ie, x, trim(coords.skip(c + 1)))
            } else {
                None
            }
        },
    }
}

/// `transform="translate(` starts at `tf`.
pub open spec fn glyph_transform(o: Seq<char>, tf: int) -> Option<GlyphPos> {
    let is = tf + pat_translate().len();
    match find(o.skip(is), pat_rparen()) {
        None => None,
        Some(r) => glyph_tf_coords(o, is, is + r),
    }
}

/// The value of `y` after the value of `x`, which ends at `xe`.
pub open spec fn glyph_xy_after_x(o: Seq<char>, xe: int, x: Seq<char>) -> Option<GlyphPos> {
    match find(o.skip(xe), pat_sp_y()) {
        None => None,
        Some(r2) => {
            let yp = xe + r2 + pat_sp_y().len();
            match find(o.skip(yp), pat_quote()) {
                None => None,
                Some(r3) => Some(
                    GlyphPos { is_transform: false, x, y: o.subrange(yp, yp + r3), ratio: None },
                ),
            }
        },
    }
}

/// ` x="X" y="Y"`; `X` must be a number.
pub open spec fn glyph_xy(o: Seq<char>) -> Option<GlyphPos> {
    match find(o, pat_sp_x()) {
        None => None,
        Some(p) => {
            let xp = p + pat_sp_x().len();
            match find(o.skip(xp), pat_quote()) {
                None => None,
                Some(r) => {
                    let x = trim(o.subrange(xp, xp + r));
                    if float_literal(x) {
                        glyph_xy_after_x(o, xp + r, x)
                    } else {
                        None
                    }
                },
            }
        },
    }
}

pub open spec fn glyph_pos(o: Seq<char>) -> Option<GlyphPos> {
    match find(o, pat_translate()) {
        Some(tf) => glyph_transform(o, tf),
        None => glyph_xy(o),
    }
}

/// A glyph position read from a buffer, as windows of the buffer.
pub struct GlyphPosAt {
    pub is_transform: bool,
    pub x: (usize, usize),
    pub y: (usize, usize),
    pub ratio: Option<(usize, usize)>,
}

pub open spec fn pos_at(l: Seq<char>, e: GlyphPosAt, v: GlyphPos) -> bool {
    &&& e.is_transform == v.is_transform
    &&& win_ok(l, e.x) && win(l, e.x) == v.x
    &&& win_ok(l, e.y) && win(l, e.y) == v.y
    &&& match (e.ratio, v.ratio) {
        (Some(w), Some(sv)) => win_ok(l, w) && win(l, w) == sv,
        (None, None) => true,
        _ => false,
    }
}

pub open spec fn opt_pos_at(l: Seq<char>, e: Option<GlyphPosAt>, v: Option<GlyphPos>) -> bool {
    match (e, v) {
        (Some(e), Some(v)) => pos_at(l, e, v),
        (None, None) => true,
        _ => false,
    }
}

fn glyph_tf_ratio_win(l: &Vec<char>, ob: usize, oe: usize, ie: usize, x: (usize, usize), y: (usize, usize))
    -> (r: Option<GlyphPosAt>)
    requires
        ob <= ie <= oe <= l.len(),
        win_ok(l@, x),
        win_ok(l@, y),
    ensures
        opt_pos_at(l@, r, glyph_tf_ratio(l@.subrange(ob as int, oe as int), ie - ob, win(l@, x), win(l@, y))),
{
    let ghost o = l@.subrange(ob as int, oe as int);
    let sc = vec_scale();
    assert(l@.subrange(ie as int, oe as int) =~= o.skip(ie - ob));
    let sp = match find_in(l, &sc, ie, oe) {
        Some(k) => k,
        None => {
            return Some(GlyphPosAt { is_transform: true, x, y, ratio: None });
        },
    };
    proof {
        lemma_find_win_bounds(l@, sc@, ie as int, oe as int);
    }
    let ss = sp + 6;
    assert(l@.subrange(ss as int, oe as int) =~= o.skip(ss - ob));
    let comma = vec_comma();
    let rp = vec_rparen();
    let se = match find_in(l, &comma, ss, oe) {
        Some(k) => k,
        None => match find_in(l, &rp, ss, oe) {
            Some(k) => k,
            None => {
                return None;
            },
        },
    };
    proof {
        lemma_find_win_bounds(l@, comma@, ss as int, oe as int);
        lemma_find_win_bounds(l@, rp@, ss as int, oe as int);
    }
    assert(l@.subrange(ss as int, se as int) =~= o.subrange(ss - ob, se - ob));
    let (ra, rb) = trim_win(l, ss, se);
    Some(GlyphPosAt { is_transform: true, x, y, ratio: Some((ra, rb)) })
}

fn glyph_tf_coords_win(l: &Vec<char>, ob: usize, oe: usize, is: usize, ie: usize) -> (r: Option<GlyphPosAt>)
    requires
        ob <= is <= ie <= oe <= l.len(),
    ensures
        opt_pos_at(l@, r, glyph_tf_coords(l@.subrange(ob as int, oe as int), is - ob, ie - ob)),
{
    let ghost o = l@.subrange(ob as int, oe as int);
    let comma = vec_comma();
    let ghost coords = o.subrange(is - ob, ie - ob);
    assert(l@.subrange(is as int, ie as int) =~= coords);
    let c = match find_in(l, &comma, is, ie) {
        Some(k) => k,
        None => {
            return None;
        },
    };
    proof {
        lemma_find_win_bounds(l@, comma@, is as int, ie as int);
    }
    assert(l@.subrange(is as int, c as int) =~= coords.take(c - is));
    assert(l@.subrange(c + 1, ie as int) =~= coords.skip(c - is + 1));
    let (xa, xb) = trim_win(l, is, c);
    if !float_literal_win(l, xa, xb) {
        return None;
    }
    let (ya, yb) = trim_win(l, c + 1, ie);
    glyph_tf_ratio_win(l, ob, oe, ie, (xa, xb), (ya, yb))
}

fn glyph_transform_win(l: &Vec<char>, ob: usize, oe: usize, tf: usize) -> (r: Option<GlyphPosAt>)
    requires
        ob <= tf,
        tf + pat_translate().len() <= oe <= l.len(),
    ensures
        opt_pos_at(l@, r, glyph_transform(l@.subrange(ob as int, oe as int), tf - ob)),
{
    let ghost o = l@.subrange(ob as int, oe as int);
    let rp = vec_rparen();
    let is = tf + 21;
    assert(l@.subrange(is as int, oe as int) =~= o.skip(is - ob));
    let ie = match find_in(l, &rp, is, oe) {
        Some(k) => k,
        None => {
            return None;
        },
    };
    proof {
        lemma_find_win_bounds(l@, rp@, is as int, oe as int);
    }
    glyph_tf_coords_win(l, ob, oe, is, ie)
}

fn glyph_xy_after_x_win(l: &Vec<char>, ob: usize, oe: usize, xe: usize, x: (usize, usize)) -> (r: Option<GlyphPosAt>)
    requires
        ob <= xe <= oe <= l.len(),
        win_ok(l@, x),
    ensures
        opt_pos_at(l@, r, glyph_xy_after_x(l@.subrange(ob as int, oe as int), xe - ob, win(l@, x))),
{
    let ghost o = l@.subrange(ob as int, oe as int);
    let spy = vec_sp_y();
    let quote = vec_quote();
    assert(l@.subrange(xe as int, oe as int) =~= o.skip(xe - ob));
    let r2 = match find_in(l, &spy, xe, oe) {
        Some(k) => k,
        None => {
            return None;
        },
    };
    proof {
        lemma_find_win_bounds(l@, spy@, xe as int, oe as int);
    }
    let yp = r2 + 4;
    assert(l@.subrange(yp as int, oe as int) =~= o.skip(yp - ob));
    let ye = match find_in(l, &quote, yp, oe) {
        Some(k) => k,
        None => {
            return None;
        },
    };
    proof {
        lemma_find_win_bounds(l@, quote@, yp as int, oe as int);
    }
    assert(l@.subrange(yp as int, ye as int) =~= o.subrange(yp - ob, ye - ob));
    Some(GlyphPosAt { is_transform: false, x, y: (yp, ye), ratio: None })
}

fn glyph_xy_win(l: &Vec<char>, ob: usize, oe: usize) -> (r: Option<GlyphPosAt>)
    requires
        ob <= oe <= l.len(),
    ensures
        opt_pos_at(l@, r, glyph_xy(l@.subrange(ob as int, oe as int))),
{
    let ghost o = l@.subrange(ob as int, oe as int);
    let spx = vec_sp_x();
    let quote = vec_quote();
    let p = match find_in(l, &spx, ob, oe) {
        Some(p) => p,
        None => {
            return None;
        },
    };
    proof {
        lemma_find_win_bounds(l@, spx@, ob as int, oe as int);
    }
    let xp = p + 4;
    assert(l@.subrange(xp as int, oe as int) =~= o.skip(xp - ob));
    let xe = match find_in(l, &quote, xp, oe) {
        Some(k) => k,
        None => {
            return None;
        },
    };
    proof {
        lemma_find_win_bounds(l@, quote@, xp as int, oe as int);
    }
    assert(l@.subrange(xp as int, xe as int) =~= o.subrange(xp - ob, xe - ob));
    let (xa, xb) = trim_win(l, xp, xe);
    if !float_literal_win(l, xa, xb) {
        return None;
    }
    glyph_xy_after_x_win(l, ob, oe, xe, (xa, xb))
}

fn glyph_pos_win(l: &Vec<char>, ob: usize, oe: usize) -> (r: Option<GlyphPosAt>)
    requires
        ob <= oe <= l.len(),
    ensures
        opt_pos_at(l@, r, glyph_pos(l@.subrange(ob as int, oe as int))),
{
    let tr = vec_translate();
    match find_in(l, &tr, ob, oe) {
        Some(tf) => {
            proof {
                lemma_find_win_bounds(l@, tr@, ob as int, oe as int);
            }
            glyph_transform_win(l, ob, oe, tf)
        },
        None => glyph_xy_win(l, ob, oe),
    }
}

/// What the overlap correction reads of one `<text>` line: its form and position texts,
/// the text of its scale, of its font size, its font family (empty when none is named) and
/// its text with the XML entities decoded.
pub ghost struct GlyphText {
    pub is_transform: bool,
    pub x: Seq<char>,
    pub y: Seq<char>,
    pub ratio: Option<Seq<char>>,
    pub font_size: Option<Seq<char>>,
    pub font_family: Seq<char>,
    pub payload: Seq<char>,
}

/// The text of `font-size="..."`.
pub open spec fn font_size_text(o: Seq<char>) -> Option<Seq<char>> {
    match find(o, pat_font_size()) {
        None => None,
        Some(k) => {
            let start = k + pat_font_size().len();
            match find(o.skip(start), pat_quote()) {
                None => None,
                Some(e) => Some(o.subrange(start, start + e)),
            }
        },
    }
}

/// Reads a line holding one `<text>` element (no `<tspan>`) whose decoded text does not trim
/// to nothing and whose position can be read; `None` for any other line.
pub open spec fn parse_glyph_line(l: Seq<char>) -> Option<GlyphText> {
    if find(l, pat_tspan()) is Some {
        None
    } else {
        match find(l, pat_text_open()) {
            None => None,
            Some(ts) => {
                let ab = ts + pat_text_open().len();
                match find(l.skip(ab), pat_gt()) {
                    None => None,
                    Some(ter) => {
                        let tea = ab + ter;
                        let o = l.subrange(ab, tea);
                        match rfind(l, pat_text_close()) {
                            None => None,
                            Some(cs) => if cs <= tea + 1 {
                                None
                            } else {
                                let payload = decoded_entities(l.subrange(tea + 1, cs));
                                if trim(payload).len() == 0 {
                                    None
                                } else {
                                    match glyph_pos(o) {
                                        None => None,
                                        Some(p) => Some(
                                            GlyphText {
                                                is_transform: p.is_transform,
                                                x: p.x,
                                                y: p.y,
                                                ratio: p.ratio,
                                                font_size: font_size_text(o),
                                                font_family: match font_family_of(o) {
                                                    Some(f) => f,
                                                    None => Seq::empty(),
                                                },
                                                payload,
                                            },
                                        ),
                                    }
                                }
                            },
                        }
                    },
                }
            },
        }
    }
}

/// One `<text>` line as the overlap correction reads it; the numbers are kept as written.
pub struct GlyphTextElem {
    pub is_transform: bool,
    pub x: String,
    pub y: String,
    pub ratio: Option<String>,
    pub font_size: Option<String>,
    pub font_family: String,
    pub payload: String,
}

pub open spec fn opt_string_view(o: Option<String>) -> Option<Seq<char>> {
    match o {
        Some(s) => Some(s@),
        None => None,
    }
}

impl View for GlyphTextElem {
    type V = GlyphText;

    open spec fn view(&self) -> GlyphText {
        GlyphText {
            is_transform: self.is_transform,
            x: self.x@,
            y: self.y@,
            ratio: opt_string_view(self.ratio),
            font_size: opt_string_view(self.font_size),
            font_family: self.font_family@,
            payload: self.payload@,
        }
    }
}

pub open spec fn opt_glyph_view(o: Option<GlyphTextElem>) -> Option<GlyphText> {
    match o {
        Some(e) => Some(e@),
        None => None,
    }
}

fn string_of_win(l: &Vec<char>, lo: usize, hi: usize) -> (r: String)
    requires
        lo <= hi <= l.len(),
    ensures
        r@ == l@.subrange(lo as int, hi as int),
{
    let mut r = String::new();
    push_chars(&mut r, l, lo, hi);
    assert(r@ =~= l@.subrange(lo as int, hi as int));
    r
}

fn font_size_text_win(l: &Vec<char>, lo: usize, hi: usize) -> (r: Option<String>)
    requires
        lo <= hi <= l.len(),
    ensures
        opt_string_view(r) == font_size_text(l@.subrange(lo as int, hi as int)),
{
    let ghost w = l@.subrange(lo as int, hi as int);
    let fs = vec_font_size();
    let k = match find_in(l, &fs, lo, hi) {
        Some(k) => k,
        None => {
            return None;
        },
    };
    proof {
        lemma_find_win_bounds(l@, fs@, lo as int, hi as int);
    }
    let start = k + fs.len();
    let ghost rs = (k - lo + pat_font_size().len()) as int;
    assert(l@.subrange(start as int, hi as int) =~= w.skip(rs));
    let q = vec_quote();
    let e = match find_in(l, &q, start, hi) {
        Some(e) => e,
        None => {
            return None;
        },
    };
    proof {
        lemma_find_win_bounds(l@, q@, start as int, hi as int);
    }
    assert(l@.subrange(start as int, e as int) =~= w.subrange(rs, rs + (e - start)));
    Some(string_of_win(l, start, e))
}

fn glyph_text_of(l: &Vec<char>, ab: usize, tea: usize, p: GlyphPosAt, payload: Vec<char>, Ghost(v): Ghost<GlyphPos>)
    -> (r: GlyphTextElem)
    requires
        ab <= tea <= l.len(),
        pos_at(l@, p, v),
    ensures
        r@ == (GlyphText {
            is_transform: v.is_transform,
            x: v.x,
            y: v.y,
            ratio: v.ratio,
            font_size: font_size_text(l@.subrange(ab as int, tea as int)),
            font_family: match font_family_of(l@.subrange(ab as int, tea as int)) {
                Some(f) => f,
                None => Seq::empty(),
            },
            payload: payload@,
        }),
{
    let family = match parse_font_family_win(l, ab, tea) {
        Some(f) => {
            let mut s = String::new();
            push_chars(&mut s, &f, 0, f.len());
            assert(s@ =~= f@);
            s
        },
        None => {
            let s = String::new();
            assert(s@ =~= Seq::<char>::empty());
            s
        },
    };
    let mut pl = String::new();
    push_chars(&mut pl, &payload, 0, payload.len());
    assert(pl@ =~= payload@);
    let ratio = match p.ratio {
        Some(w) => Some(string_of_win(l, w.0, w.1)),
        None => None,
    };
    GlyphTextElem {
        is_transform: p.is_transform,
        x: string_of_win(l, p.x.0, p.x.1),
        y: string_of_win(l, p.y.0, p.y.1),
        ratio,
        font_size: font_size_text_win(l, ab, tea),
        font_family: family,
        payload: pl,
    }
}

fn parse_glyph_chars(l: &Vec<char>) -> (r: Option<GlyphTextElem>)
    ensures
        opt_glyph_view(r) == parse_glyph_line(l@),
{
    let n = l.len();
    assert(l@.subrange(0, n as int) =~= l@);
    if find_in(l, &vec_tspan(), 0, n).is_some() {
        return None;
    }
    let to = vec_text_open();
    let ts = match find_in(l, &to, 0, n) {
        Some(k) => k,
        None => {
            return None;
        },
    };
    proof {
        lemma_find_win_bounds(l@, to@, 0, n as int);
    }
    let ab = ts + 5;
    let gt = vec_gt();
    assert(l@.subrange(ab as int, n as int) =~= l@.skip(ab as int));
    let tea = match find_in(l, &gt, ab, n) {
        Some(k) => k,
        None => {
            return None;
        },
    };
    proof {
        lemma_find_win_bounds(l@, gt@, ab as int, n as int);
    }
    let tc = vec_text_close();
    let cs = match rfind_in(l, &tc, 0, n) {
        Some(k) => k,
        None => {
            return None;
        },
    };
    proof {
        lemma_rfind_to_bounds(l@, tc@, l@.len() - tc@.len());
    }
    if cs <= tea + 1 {
        return None;
    }
    let raw = window_vec(l, tea + 1, cs);
    let payload = decode_xml_entities_chars(&raw);
    assert(payload@.subrange(0, payload@.len() as int) =~= payload@);
    proof {
        crate::text::lemma_trim_empty_iff_all_ws(payload@);
    }
    if all_ws_win(&payload, 0, payload.len()) {
        return None;
    }
    match glyph_pos_win(l, ab, tea) {
        None => None,
        Some(p) => {
            let ghost v = glyph_pos(l@.subrange(ab as int, tea as int)).unwrap();
            Some(glyph_text_of(l, ab, tea, p, payload, Ghost(v)))
        },
    }
}

/// Reads one SVG line for the overlap correction.
pub fn parse_glyph_text_line(line: &str) -> (r: Option<GlyphTextElem>)
    ensures
        opt_glyph_view(r) == parse_glyph_line(line@),
{
    parse_glyph_chars(&chars_of(line))
}

// ---------------------------------------------------------------------------------------
// Writing a new origin into a line.

/// The line with the origin `x` replaced by `nx`: the `X` of `translate(X,Y)` for the
/// transform form, the value of ` x="..."` otherwise; the line as it is when that cannot
/// be found.
pub open spec fn rewritten_x(l: Seq<char>, is_transform: bool, nx: Seq<char>) -> Seq<char> {
    if is_transform {
        match find(l, pat_translate()) {
            None => l,
            Some(tf) => {
                let is = tf + pat_translate().len();
                match find(l.skip(is), pat_rparen()) {
                    None => l,
                    Some(r) => {
                        let ie = is + r;
                        match find(l.subrange(is, ie), pat_comma()) {
                            None => l,
                            Some(c) => l.take(is) + nx + seq![','] + l.subrange(is + c + 1, ie)
                                + l.skip(ie),
                        }
                    },
                }
            },
        }
    } else {
        match find(l, pat_sp_x()) {
            None => l,
            Some(p) => {
                let vs = p + pat_sp_x().len();
                match find(l.skip(vs), pat_quote()) {
                    None => l,
                    Some(r) => l.take(vs) + nx + l.skip(vs + r),
                }
            },
        }
    }
}

fn rewrite_chars(l: &Vec<char>, is_transform: bool, nx: &Vec<char>) -> (r: Vec<char>)
    ensures
        r@ == rewritten_x(l@, is_transform, nx@),
{
    let n = l.len();
    assert(l@.subrange(0, n as int) =~= l@);
    let mut out: Vec<char> = Vec::new();
    if is_transform {
        let tr = vec_translate();
        let tf = match find_in(l, &tr, 0, n) {
            Some(k) => k,
            None => {
                return window_vec(l, 0, n);
            },
        };
        proof {
            lemma_find_win_bounds(l@, tr@, 0, n as int);
        }
        let is = tf + 21;
        assert(l@.subrange(is as int, n as int) =~= l@.skip(is as int));
        let rp = vec_rparen();
        let ie = match find_in(l, &rp, is, n) {
            Some(k) => k,
            None => {
                return window_vec(l, 0, n);
            },
        };
        proof {
            lemma_find_win_bounds(l@, rp@, is as int, n as int);
        }
        let cm = vec_comma();
        let c = match find_in(l, &cm, is, ie) {
            Some(k) => k,
            None => {
                return window_vec(l, 0, n);
            },
        };
        proof {
            lemma_find_win_bounds(l@, cm@, is as int, ie as int);
        }
        extend_window(&mut out, l, 0, is);
        extend_window(&mut out, nx, 0, nx.len());
        out.push(',');
        extend_window(&mut out, l, c + 1, ie);
        extend_window(&mut out, l, ie, n);
        assert(nx@.subrange(0, nx@.len() as int) =~= nx@);
        assert(l@.subrange(0, is as int) =~= l@.take(is as int));
        assert(l@.subrange(ie as int, n as int) =~= l@.skip(ie as int));
        assert(out@ =~= rewritten_x(l@, is_transform, nx@));
        out
    } else {
        let spx = vec_sp_x();
        let p = match find_in(l, &spx, 0, n) {
            Some(k) => k,
            None => {
                return window_vec(l, 0, n);
            },
        };
        proof {
            lemma_find_win_bounds(l@, spx@, 0, n as int);
        }
        let vs = p + 4;
        assert(l@.subrange(vs as int, n as int) =~= l@.skip(vs as int));
        let q = vec_quote();
        let ve = match find_in(l, &q, vs, n) {
            Some(k) => k,
            None => {
                return window_vec(l, 0, n);
            },
        };
        proof {
            lemma_find_win_bounds(l@, q@, vs as int, n as int);
        }
        extend_window(&mut out, l, 0, vs);
        extend_window(&mut out, nx, 0, nx.len());
        extend_window(&mut out, l, ve, n);
        assert(nx@.subrange(0, nx@.len() as int) =~= nx@);
        assert(l@.subrange(0, vs as int) =~= l@.take(vs as int));
        assert(l@.subrange(ve as int, n as int) =~= l@.skip(ve as int));
        assert(out@ =~= rewritten_x(l@, is_transform, nx@));
        out
    }
}

/// The line with its glyph origin replaced by `new_x` (the number as it is to be written).
pub fn rewrite_glyph_text_x(line: &str, is_transform: bool, new_x: &str) -> (r: String)
    ensures
        r@ == rewritten_x(line@, is_transform, new_x@),
{
    let v = rewrite_chars(&chars_of(line), is_transform, &chars_of(new_x));
    string_of_win(&v, 0, v.len())
}

// ---------------------------------------------------------------------------------------
// Glyphs on one baseline.

/// The baseline of each line read as a glyph, `None` for the other lines.
pub open spec fn baselines(parsed: Seq<Option<GlyphTextElem>>) -> Seq<Option<Seq<char>>> {
    parsed.map_values(
        |o: Option<GlyphTextElem>|
            match o {
                Some(e) => Some(e.y@),
                None => None,
            },
    )
}

/// A finished group is kept when it holds two glyphs or more.
pub open spec fn close_group(cur: Seq<usize>) -> Seq<Seq<usize>> {
    if cur.len() >= 2 {
        seq![cur]
    } else {
        Seq::empty()
    }
}

/// The groups from line `i` on, with `cur` the group being gathered on baseline `cur_y`.
pub open spec fn groups_from(ys: Seq<Option<Seq<char>>>, i: int, cur: Seq<usize>, cur_y: Option<
    Seq<char>,
>) -> Seq<Seq<usize>>
    decreases ys.len() - i,
{
    if i < 0 || i >= ys.len() {
        close_group(cur)
    } else {
        match ys[i] {
            Some(y) => if cur_y == Some(y) {
                groups_from(ys, i + 1, cur.push(i as usize), cur_y)
            } else {
                close_group(cur) + groups_from(ys, i + 1, seq![i as usize], Some(y))
            },
            None => close_group(cur) + groups_from(ys, i + 1, Seq::empty(), None),
        }
    }
}

/// The runs of consecutive glyph lines that share one baseline, two glyphs or more each,
/// as line indices in order; any other line ends a run.
pub open spec fn glyph_groups_of(ys: Seq<Option<Seq<char>>>) -> Seq<Seq<usize>> {
    groups_from(ys, 0, Seq::empty(), None)
}

/// A group: two glyph lines or more, consecutive, all on one baseline.
pub open spec fn group_ok(ys: Seq<Option<Seq<char>>>, g: Seq<usize>) -> bool {
    &&& g.len() >= 2
    &&& forall|j: int|
        0 <= j < g.len() ==> (#[trigger] g[j]) < ys.len() && ys[g[j] as int] is Some && ys[g[j] as int]
            == ys[g[0] as int]
    &&& forall|j: int| 0 <= j && j + 1 < g.len() ==> #[trigger] g[j + 1] == g[j] + 1
}

/// The group being gathered: consecutive lines up to line `i - 1`, all on baseline `y`.
pub open spec fn run_ok(ys: Seq<Option<Seq<char>>>, cur: Seq<usize>, y: Option<Seq<char>>, i: int) -> bool {
    &&& cur.len() > 0 ==> (y is Some && cur.last() == i - 1)
    &&& forall|j: int| 0 <= j < cur.len() ==> (#[trigger] cur[j]) < ys.len() && ys[cur[j] as int] == y
    &&& forall|j: int| 0 <= j && j + 1 < cur.len() ==> #[trigger] cur[j + 1] == cur[j] + 1
}

proof fn lemma_close_group_ok(ys: Seq<Option<Seq<char>>>, cur: Seq<usize>, y: Option<Seq<char>>, i: int)
    requires
        run_ok(ys, cur, y, i),
    ensures
        forall|k: int| 0 <= k < close_group(cur).len() ==> group_ok(ys, #[trigger] close_group(cur)[k]),
{
    if cur.len() >= 2 {
        assert(close_group(cur)[0] == cur);
        assert(ys[cur[0] as int] == y);
    }
}

proof fn lemma_groups_from_ok(ys: Seq<Option<Seq<char>>>, i: int, cur: Seq<usize>, y: Option<Seq<char>>)
    requires
        0 <= i <= ys.len(),
        ys.len() <= usize::MAX,
        run_ok(ys, cur, y, i),
    ensures
        forall|k: int|
            0 <= k < groups_from(ys, i, cur, y).len() ==> group_ok(ys, #[trigger] groups_from(ys, i, cur, y)[k]),
    decreases ys.len() - i,
{
    lemma_close_group_ok(ys, cur, y, i);
    if i >= ys.len() {
        assert(groups_from(ys, i, cur, y) == close_group(cur));
    } else {
        match ys[i] {
            Some(yi) => {
                if y == Some(yi) {
                    let c2 = cur.push(i as usize);
                    assert(run_ok(ys, c2, y, i + 1)) by {
                        assert forall|j: int| 0 <= j && j + 1 < c2.len() implies #[trigger] c2[j + 1]
                            == c2[j] + 1 by {
                            if j + 1 == cur.len() {
                                assert(c2[j] == cur.last());
                            }
                        }
                    }
                    lemma_groups_from_ok(ys, i + 1, c2, y);
                    assert(groups_from(ys, i, cur, y) == groups_from(ys, i + 1, c2, y));
                } else {
                    let c2 = seq![i as usize];
                    assert(run_ok(ys, c2, Some(yi), i + 1));
                    lemma_groups_from_ok(ys, i + 1, c2, Some(yi));
                    let a = close_group(cur);
                    let b = groups_from(ys, i + 1, c2, Some(yi));
                    assert(groups_from(ys, i, cur, y) == a + b);
                    assert forall|k: int| 0 <= k < (a + b).len() implies group_ok(ys, #[trigger] (a + b)[k]) by {
                        if k >= a.len() {
                            assert((a + b)[k] == b[k - a.len()]);
                        }
                    }
                }
            },
            None => {
                let e = Seq::<usize>::empty();
                assert(run_ok(ys, e, None, i + 1));
                lemma_groups_from_ok(ys, i + 1, e, None);
                let a = close_group(cur);
                let b = groups_from(ys, i + 1, e, None);
                assert(groups_from(ys, i, cur, y) == a + b);
                assert forall|k: int| 0 <= k < (a + b).len() implies group_ok(ys, #[trigger] (a + b)[k]) by {
                    if k >= a.len() {
                        assert((a + b)[k] == b[k - a.len()]);
                    }
                }
            },
        }
    }
}

/// Every group that the overlap correction works on holds two glyph lines or more that
/// follow one another and stand on one baseline; any other line ends a group.
pub proof fn law_groups_share_baseline(ys: Seq<Option<Seq<char>>>)
    requires
        ys.len() <= usize::MAX,
    ensures
        forall|k: int|
            0 <= k < glyph_groups_of(ys).len() ==> group_ok(ys, #[trigger] glyph_groups_of(ys)[k]),
{
    lemma_groups_from_ok(ys, 0, Seq::empty(), None);
}

pub open spec fn groups_view(g: Seq<Vec<usize>>) -> Seq<Seq<usize>> {
    g.map_values(|v: Vec<usize>| v@)
}

fn close_into(groups: &mut Vec<Vec<usize>>, cur: Vec<usize>)
    ensures
        groups_view(final(groups)@) == groups_view(old(groups)@) + close_group(cur@),
{
    if cur.len() >= 2 {
        groups.push(cur);
        assert(groups_view(groups@) =~= groups_view(old(groups)@) + close_group(cur@));
    } else {
        assert(groups_view(old(groups)@) + close_group(cur@) =~= groups_view(old(groups)@));
    }
}

/// Groups the glyph lines by baseline as the overlap correction walks them.
pub fn glyph_groups(parsed: &Vec<Option<GlyphTextElem>>) -> (r: Vec<Vec<usize>>)
    ensures
        groups_view(r@) == glyph_groups_of(baselines(parsed@)),
{
    let ghost ys = baselines(parsed@);
    let mut groups: Vec<Vec<usize>> = Vec::new();
    let mut cur: Vec<usize> = Vec::new();
    let mut cur_y: Option<usize> = None;
    let mut i: usize = 0;
    assert(groups_view(groups@) =~= Seq::<Seq<usize>>::empty());
    while i < parsed.len()
        invariant
            i <= parsed.len(),
            ys == baselines(parsed@),
            cur_y matches Some(j) ==> j < parsed.len() && parsed@[j as int] is Some,
            groups_view(groups@) + groups_from(
                ys,
                i as int,
                cur@,
                match cur_y {
                    Some(j) => ys[j as int],
                    None => None,
                },
            ) == glyph_groups_of(ys),
        decreases parsed.len() - i,
    {
        let ghost cy = match cur_y {
            Some(j) => ys[j as int],
            None => None,
        };
        let ghost before = groups_view(groups@) + groups_from(ys, i as int, cur@, cy);
        assert(ys[i as int] == match parsed@[i as int] {
            Some(e) => Some(e.y@),
            None => None,
        });
        match &parsed[i] {
            Some(e) => {
                let same = match cur_y {
                    Some(j) => match &parsed[j] {
                        Some(g) => crate::text::str_eq(g.y.as_str(), e.y.as_str()),
                        None => false,
                    },
                    None => false,
                };
                if same {
                    cur.push(i);
                } else {
                    let ghost g0 = groups_view(groups@);
                    let ghost done = cur@;
                    close_into(&mut groups, cur);
                    cur = Vec::new();
                    cur.push(i);
                    cur_y = Some(i);
                    assert(cur@ =~= seq![i]);
                    assert(groups_view(groups@) + groups_from(ys, i + 1, cur@, ys[i as int]) =~= g0
                        + (close_group(done) + groups_from(ys, i + 1, seq![i], ys[i as int])));
                }
            },
            None => {
                let ghost g0 = groups_view(groups@);
                let ghost done = cur@;
                close_into(&mut groups, cur);
                cur = Vec::new();
                cur_y = None;
                assert(cur@ =~= Seq::<usize>::empty());
                assert(groups_view(groups@) + groups_from(ys, i + 1, cur@, None) =~= g0 + (
                close_group(done) + groups_from(ys, i + 1, Seq::empty(), None)));
            },
        }
        i = i + 1;
    }
    close_into(&mut groups, cur);
    groups
}

// ---------------------------------------------------------------------------------------
// Writing the moved glyphs back.

/// The new origin given for line `k`, if any.
pub open spec fn shift_at(new_x: Seq<Option<String>>, k: int) -> Option<Seq<char>> {
    if 0 <= k < new_x.len() {
        opt_string_view(new_x[k])
    } else {
        None
    }
}

/// A line with its new origin written in, when it has one and is a glyph line.
pub open spec fn line_with_shift(l: Seq<char>, nx: Option<Seq<char>>) -> Seq<char> {
    match (nx, parse_glyph_line(l)) {
        (Some(x), Some(g)) => rewritten_x(l, g.is_transform, x),
        _ => l,
    }
}

/// The lines from line `k` on, each rewritten and ended by a newline.
pub open spec fn shift_lines(ls: Seq<Seq<char>>, new_x: Seq<Option<String>>, k: int) -> Seq<char>
    decreases ls.len(),
{
    if ls.len() == 0 {
        Seq::empty()
    } else {
        line_with_shift(ls[0], shift_at(new_x, k)) + seq!['\n'] + shift_lines(
            ls.drop_first(),
            new_x,
            k + 1,
        )
    }
}

pub open spec fn any_shift(new_x: Seq<Option<String>>) -> bool {
    exists|k: int| 0 <= k < new_x.len() && #[trigger] new_x[k] is Some
}

/// The SVG with the glyphs of lines that were given a new origin moved there; when no line
/// was given one, the SVG as it is.
pub open spec fn glyph_shifts_applied(svg: Seq<char>, new_x: Seq<Option<String>>) -> Seq<char> {
    if any_shift(new_x) {
        shift_lines(lines(svg), new_x, 0)
    } else {
        svg
    }
}

fn line_out(l: &Vec<char>, new_x: &Vec<Option<String>>, k: usize) -> (r: Vec<char>)
    ensures
        r@ == line_with_shift(l@, shift_at(new_x@, k as int)),
{
    assert(l@.subrange(0, l@.len() as int) =~= l@);
    if k < new_x.len() {
        match &new_x[k] {
            Some(nx) => match parse_glyph_chars(l) {
                Some(g) => rewrite_chars(l, g.is_transform, &chars_of(nx.as_str())),
                None => window_vec(l, 0, l.len()),
            },
            None => window_vec(l, 0, l.len()),
        }
    } else {
        window_vec(l, 0, l.len())
    }
}

proof fn lemma_shift_lines_cons(l: Seq<char>, rest: Seq<Seq<char>>, new_x: Seq<Option<String>>, k: int)
    ensures
        shift_lines(seq![l] + rest, new_x, k) == line_with_shift(l, shift_at(new_x, k)) + seq!['\n']
            + shift_lines(rest, new_x, k + 1),
{
    let ls = seq![l] + rest;
    assert(ls[0] == l);
    assert(ls.drop_first() =~= rest);
}

fn push_line(out: &mut String, l: &Vec<char>, new_x: &Vec<Option<String>>, k: usize)
    ensures
        final(out)@ == old(out)@ + line_with_shift(l@, shift_at(new_x@, k as int)) + seq!['\n'],
{
    let v = line_out(l, new_x, k);
    push_chars(out, &v, 0, v.len());
    assert(v@.subrange(0, v@.len() as int) =~= v@);
    push_char(out, '\n');
}

/// Writes the new origins into the SVG: `new_x[k]` is the origin for line `k` (a number as
/// it is to be written), `None` where the glyph stays.
pub fn apply_glyph_shifts(svg: &str, new_x: &Vec<Option<String>>) -> (r: String)
    ensures
        r@ == glyph_shifts_applied(svg@, new_x@),
{
    let mut j: usize = 0;
    let mut any = false;
    while j < new_x.len()
        invariant
            j <= new_x.len(),
            !any ==> forall|m: int| 0 <= m < j ==> new_x@[m] is None,
            any ==> any_shift(new_x@),
        decreases new_x.len() - j,
    {
        if new_x[j].is_some() {
            any = true;
        }
        j = j + 1;
    }
    if !any {
        return string_of(svg);
    }
    let cs = chars_of(svg);
    let mut out = String::new();
    let mut cur: Vec<char> = Vec::new();
    let mut i: usize = 0;
    let mut k: usize = 0;
    assert(cs@.skip(0) =~= cs@);
    assert(out@ =~= Seq::<char>::empty());
    while i < cs.len()
        invariant
            i <= cs.len(),
            k <= i,
            cs@ == svg@,
            any_shift(new_x@),
            out@ + shift_lines(lines_from(cs@.skip(i as int), cur@), new_x@, k as int)
                == glyph_shifts_applied(svg@, new_x@),
        decreases cs.len() - i,
    {
        let ghost rest = cs@.skip(i as int);
        assert(rest.drop_first() =~= cs@.skip(i + 1));
        assert(rest[0] == cs@[i as int]);
        let ghost c0 = cur@;
        if cs[i] == '\n' {
            let n = cur.len();
            if n > 0 && cur[n - 1] == '\r' {
                assert(cur@.drop_last() =~= cur@.subrange(0, n - 1));
                cur.pop();
            }
            assert(cur@ == strip_cr(c0));
            let ghost o0 = out@;
            let ghost tail = lines_from(cs@.skip(i + 1), Seq::empty());
            push_line(&mut out, &cur, new_x, k);
            proof {
                assert(lines_from(rest, c0) == seq![cur@] + tail);
                lemma_shift_lines_cons(cur@, tail, new_x@, k as int);
                assert(o0 + shift_lines(seq![cur@] + tail, new_x@, k as int) =~= out@ + shift_lines(
                    tail,
                    new_x@,
                    k + 1,
                ));
            }
            cur = Vec::new();
            assert(cur@ =~= Seq::<char>::empty());
            k = k + 1;
        } else {
            cur.push(cs[i]);
            assert(lines_from(rest, c0) == lines_from(cs@.skip(i + 1), c0.push(cs@[i as int])));
        }
        i = i + 1;
    }
    assert(cs@.skip(i as int) =~= Seq::<char>::empty());
    if cur.len() > 0 {
        let ghost o0 = out@;
        push_line(&mut out, &cur, new_x, k);
        proof {
            assert(seq![cur@] + Seq::<Seq<char>>::empty() =~= seq![cur@]);
            lemma_shift_lines_cons(cur@, Seq::empty(), new_x@, k as int);
            assert(out@ =~= o0 + shift_lines(seq![cur@], new_x@, k as int));
        }
    } else {
        assert(out@ + Seq::<char>::empty() =~= out@);
    }
    out
}

} // verus!
