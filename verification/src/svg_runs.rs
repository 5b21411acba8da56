//! Merging runs of ASCII glyphs in rendered SVG into one `<text>` element per word.
//!
//! The SVG renderer writes every character as its own `<text>` at the advance the HWP
//! layout computed. For Latin headers and scene markers (`S#1.`, `PAGE`, `MEMO`) in the
//! header fonts, that advance does not fit the font the PDF is drawn with and the glyphs
//! crowd together. Consecutive glyphs with the same style, baseline and horizontal scale
//! are therefore merged into one `<text>` that the PDF font engine lays out itself.
use vstd::prelude::*;
use crate::decimal::{center_of_four, center_of_four_exec, fixed_value, format_fixed, parse_decimal, parse_decimal_window, push_fixed, Fixed4};
use crate::text::{
    all_ws, find, find_in, is_whitespace, is_ws, lemma_find_from_bounds, lemma_rfind_to_bounds,
    offset_by, push_char, push_chars, replace_all, replace_chars, rfind, rfind_in,
    trim, trim_end, trim_start,
};

verus! {

// ---------------------------------------------------------------------------------------
// Patterns.

pub open spec fn pat_font_family() -> Seq<char> {
    seq!['f', 'o', 'n', 't', '-', 'f', 'a', 'm', 'i', 'l', 'y', '=', '"']
}

pub open spec fn pat_font_size() -> Seq<char> {
    seq!['f', 'o', 'n', 't', '-', 's', 'i', 'z', 'e', '=', '"']
}

pub open spec fn pat_noto_sans() -> Seq<char> {
    seq!['N', 'o', 't', 'o', ' ', 'S', 'a', 'n', 's', ' ', 'C', 'J', 'K', ' ', 'K', 'R', ',']
}

pub open spec fn pat_yun_myeongjo() -> Seq<char> {
    seq!['-', '윤', '명', '조']
}

pub open spec fn pat_yun_gothic() -> Seq<char> {
    seq!['-', '윤', '고', '딕']
}

pub open spec fn pat_text_length() -> Seq<char> {
    seq!['t', 'e', 'x', 't', 'L', 'e', 'n', 'g', 't', 'h', '=', '"']
}

pub open spec fn pat_length_adjust() -> Seq<char> {
    seq!['l', 'e', 'n', 'g', 't', 'h', 'A', 'd', 'j', 'u', 's', 't', '=', '"']
}

pub open spec fn pat_quote() -> Seq<char> {
    seq!['"']
}

pub(crate) fn vec_font_family() -> (v: Vec<char>)
    ensures
        v@ == pat_font_family(),
{
    let v = vec!['f', 'o', 'n', 't', '-', 'f', 'a', 'm', 'i', 'l', 'y', '=', '"'];
    assert(v@ =~= pat_font_family());
    v
}

pub(crate) fn vec_font_size() -> (v: Vec<char>)
    ensures
        v@ == pat_font_size(),
{
    let v = vec!['f', 'o', 'n', 't', '-', 's', 'i', 'z', 'e', '=', '"'];
    assert(v@ =~= pat_font_size());
    v
}

pub(crate) fn vec_noto_sans() -> (v: Vec<char>)
    ensures
        v@ == pat_noto_sans(),
{
    let v = vec!['N', 'o', 't', 'o', ' ', 'S', 'a', 'n', 's', ' ', 'C', 'J', 'K', ' ', 'K', 'R', ','];
    assert(v@ =~= pat_noto_sans());
    v
}

pub(crate) fn vec_yun_myeongjo() -> (v: Vec<char>)
    ensures
        v@ == pat_yun_myeongjo(),
{
    let v = vec!['-', '윤', '명', '조'];
    assert(v@ =~= pat_yun_myeongjo());
    v
}

pub(crate) fn vec_yun_gothic() -> (v: Vec<char>)
    ensures
        v@ == pat_yun_gothic(),
{
    let v = vec!['-', '윤', '고', '딕'];
    assert(v@ =~= pat_yun_gothic());
    v
}

pub(crate) fn vec_text_length() -> (v: Vec<char>)
    ensures
        v@ == pat_text_length(),
{
    let v = vec!['t', 'e', 'x', 't', 'L', 'e', 'n', 'g', 't', 'h', '=', '"'];
    assert(v@ =~= pat_text_length());
    v
}

pub(crate) fn vec_length_adjust() -> (v: Vec<char>)
    ensures
        v@ == pat_length_adjust(),
{
    let v = vec!['l', 'e', 'n', 'g', 't', 'h', 'A', 'd', 'j', 'u', 's', 't', '=', '"'];
    assert(v@ =~= pat_length_adjust());
    v
}

pub(crate) fn vec_quote() -> (v: Vec<char>)
    ensures
        v@ == pat_quote(),
{
    let v = vec!['"'];
    assert(v@ =~= pat_quote());
    v
}

// ---------------------------------------------------------------------------------------
// Windows of a character buffer.

pub open spec fn starts_with(s: Seq<char>, p: Seq<char>) -> bool {
    p.len() <= s.len() && s.take(p.len() as int) == p
}

/// Whether `s[lo..hi]` starts with `p`.
pub fn starts_with_win(s: &Vec<char>, lo: usize, hi: usize, p: &Vec<char>) -> (r: bool)
    requires
        lo <= hi <= s.len(),
    ensures
        r == starts_with(s@.subrange(lo as int, hi as int), p@),
{
    if p.len() > hi - lo {
        return false;
    }
    let m = crate::text::matches_at_exec(s, p, lo);
    assert(s@.subrange(lo as int, hi as int).take(p@.len() as int) =~= s@.subrange(
        lo as int,
        lo + p@.len(),
    ));
    m
}

/// The window of `s[lo..hi]` without leading whitespace.
pub fn trim_start_win(s: &Vec<char>, lo: usize, hi: usize) -> (a: usize)
    requires
        lo <= hi <= s.len(),
    ensures
        lo <= a <= hi,
        s@.subrange(a as int, hi as int) == trim_start(s@.subrange(lo as int, hi as int)),
{
    let mut a = lo;
    while a < hi && is_whitespace(s[a])
        invariant
            lo <= a <= hi <= s.len(),
            trim_start(s@.subrange(a as int, hi as int)) == trim_start(
                s@.subrange(lo as int, hi as int),
            ),
        decreases hi - a,
    {
        assert(s@.subrange(a as int, hi as int).drop_first() =~= s@.subrange(a + 1, hi as int));
        a = a + 1;
    }
    a
}

/// The window of `s[lo..hi]` without trailing whitespace.
pub fn trim_end_win(s: &Vec<char>, lo: usize, hi: usize) -> (b: usize)
    requires
        lo <= hi <= s.len(),
    ensures
        lo <= b <= hi,
        s@.subrange(lo as int, b as int) == trim_end(s@.subrange(lo as int, hi as int)),
{
    let mut b = hi;
    while b > lo && is_whitespace(s[b - 1])
        invariant
            lo <= b <= hi <= s.len(),
            trim_end(s@.subrange(lo as int, b as int)) == trim_end(
                s@.subrange(lo as int, hi as int),
            ),
        decreases b - lo,
    {
        assert(s@.subrange(lo as int, b as int).drop_last() =~= s@.subrange(lo as int, b - 1));
        b = b - 1;
    }
    b
}

/// The window of `s[lo..hi]` without leading and trailing whitespace.
pub fn trim_win(s: &Vec<char>, lo: usize, hi: usize) -> (r: (usize, usize))
    requires
        lo <= hi <= s.len(),
    ensures
        lo <= r.0 <= r.1 <= hi,
        s@.subrange(r.0 as int, r.1 as int) == trim(s@.subrange(lo as int, hi as int)),
{
    let a = trim_start_win(s, lo, hi);
    let b = trim_end_win(s, a, hi);
    (a, b)
}

/// `find` in the window `s[lo..hi]`, as an index of `s`.
pub open spec fn find_win(s: Seq<char>, p: Seq<char>, lo: int, hi: int) -> Option<usize> {
    offset_by(find(s.subrange(lo, hi), p), lo)
}

pub(crate) proof fn lemma_find_win_bounds(s: Seq<char>, p: Seq<char>, lo: int, hi: int)
    requires
        0 <= lo <= hi <= s.len(),
        hi <= usize::MAX,
    ensures
        find_win(s, p, lo, hi) matches Some(k) ==> lo <= k && k + p.len() <= hi && find(
            s.subrange(lo, hi),
            p,
        ) == Some(k - lo),
{
    lemma_find_from_bounds(s.subrange(lo, hi), p, 0);
}

// ---------------------------------------------------------------------------------------
// Marker fonts: the fonts of Latin headers, scene markers and page numbers.

/// Whether the style's font family begins with one of the header fonts (after the font
/// fallback step, the gothic one reads `Noto Sans CJK KR,`).
pub open spec fn marker_font(style: Seq<char>) -> bool {
    match find(style, pat_font_family()) {
        None => false,
        Some(k) => {
            let head = style.skip(k + pat_font_family().len());
            ||| starts_with(head, pat_noto_sans())
            ||| starts_with(head, pat_yun_myeongjo())
            ||| starts_with(head, pat_yun_gothic())
        },
    }
}

pub fn is_marker_font_win(s: &Vec<char>, lo: usize, hi: usize) -> (r: bool)
    requires
        lo <= hi <= s.len(),
    ensures
        r == marker_font(s@.subrange(lo as int, hi as int)),
{
    let ghost w = s@.subrange(lo as int, hi as int);
    let ff = vec_font_family();
    let k = match find_in(s, &ff, lo, hi) {
        Some(k) => k,
        None => {
            return false;
        },
    };
    proof {
        lemma_find_win_bounds(s@, ff@, lo as int, hi as int);
    }
    let h = k + ff.len();
    assert(s@.subrange(h as int, hi as int) =~= w.skip(k - lo + pat_font_family().len()));
    starts_with_win(s, h, hi, &vec_noto_sans()) || starts_with_win(s, h, hi, &vec_yun_myeongjo())
        || starts_with_win(s, h, hi, &vec_yun_gothic())
}

/// Whether a style string's font family begins with one of the header fonts.
pub fn is_marker_font(style: &str) -> (r: bool)
    ensures
        r == marker_font(style@),
{
    let cs = crate::text::chars_of(style);
    assert(cs@.subrange(0, cs@.len() as int) =~= cs@);
    is_marker_font_win(&cs, 0, cs.len())
}

// ---------------------------------------------------------------------------------------
// Dropping `textLength="..."` and `lengthAdjust="..."`: the renderer sets them from each
// glyph's own advance, which keeps runs from merging and keeps the merged text from its
// natural advance.

/// Scans `rest`; inside an attribute value being dropped when `in_value`.
pub open spec fn strip_attrs(rest: Seq<char>, in_value: bool) -> Seq<char>
    decreases rest.len(),
{
    if rest.len() == 0 {
        Seq::empty()
    } else if in_value {
        strip_attrs(rest.drop_first(), rest[0] != '"')
    } else if starts_with(rest, pat_text_length()) {
        strip_attrs(rest.skip(pat_text_length().len() as int), true)
    } else if starts_with(rest, pat_length_adjust()) {
        strip_attrs(rest.skip(pat_length_adjust().len() as int), true)
    } else {
        seq![rest[0]] + strip_attrs(rest.drop_first(), false)
    }
}

/// The style without its length attributes, double spaces made single, trailing whitespace
/// dropped.
pub open spec fn strip_text_length(style: Seq<char>) -> Seq<char> {
    trim_end(replace_all(strip_attrs(style, false), seq![' ', ' '], seq![' ']))
}

/// Drops trailing whitespace from `v`.
fn truncate_trailing_ws(v: &mut Vec<char>)
    ensures
        final(v)@ == trim_end(old(v)@),
{
    loop
        invariant
            trim_end(v@) == trim_end(old(v)@),
        decreases v@.len(),
    {
        let n = v.len();
        if n > 0 && is_whitespace(v[n - 1]) {
            assert(v@.drop_last() =~= v@.subrange(0, n - 1));
            v.pop();
        } else {
            return;
        }
    }
}

pub fn strip_text_length_win(s: &Vec<char>, lo: usize, hi: usize) -> (r: Vec<char>)
    requires
        lo <= hi <= s.len(),
    ensures
        r@ == strip_text_length(s@.subrange(lo as int, hi as int)),
{
    let tl = vec_text_length();
    let la = vec_length_adjust();
    let mut out: Vec<char> = Vec::new();
    let mut in_value = false;
    let mut i = lo;
    while i < hi
        invariant
            lo <= i <= hi <= s.len(),
            tl@ == pat_text_length(),
            la@ == pat_length_adjust(),
            out@ + strip_attrs(s@.subrange(i as int, hi as int), in_value) == strip_attrs(
                s@.subrange(lo as int, hi as int),
                false,
            ),
        decreases hi - i,
    {
        let ghost rest = s@.subrange(i as int, hi as int);
        assert(rest.drop_first() =~= s@.subrange(i + 1, hi as int));
        if in_value {
            in_value = s[i] != '"';
            i = i + 1;
        } else if starts_with_win(s, i, hi, &tl) {
            assert(rest.skip(pat_text_length().len() as int) =~= s@.subrange(i + tl.len(), hi as int));
            i = i + tl.len();
            in_value = true;
        } else if starts_with_win(s, i, hi, &la) {
            assert(rest.skip(pat_length_adjust().len() as int) =~= s@.subrange(
                i + la.len(),
                hi as int,
            ));
            i = i + la.len();
            in_value = true;
        } else {
            let ghost before = out@;
            out.push(s[i]);
            assert(before + (seq![rest[0]] + strip_attrs(rest.drop_first(), false)) =~= out@
                + strip_attrs(rest.drop_first(), false));
            i = i + 1;
        }
    }
    assert(s@.subrange(hi as int, hi as int) =~= Seq::<char>::empty());
    assert(out@ + Seq::<char>::empty() =~= out@);
    let two = vec![' ', ' '];
    let one = vec![' '];
    assert(two@ =~= seq![' ', ' ']);
    assert(one@ =~= seq![' ']);
    let mut r = replace_chars(&out, &two, &one);
    truncate_trailing_ws(&mut r);
    r
}

/// The style of a `<text>` without its per-glyph length attributes.
pub fn strip_text_length_attrs(style: &str) -> (r: String)
    ensures
        r@ == strip_text_length(style@),
{
    let cs = crate::text::chars_of(style);
    assert(cs@.subrange(0, cs@.len() as int) =~= cs@);
    let v = strip_text_length_win(&cs, 0, cs.len());
    let mut r = String::new();
    push_chars(&mut r, &v, 0, v.len());
    assert(v@.subrange(0, v@.len() as int) =~= v@);
    r
}

// ---------------------------------------------------------------------------------------
// The font size of a style: the value of `font-size="..."`.

pub open spec fn font_size_of(style: Seq<char>) -> Option<Fixed4> {
    match find(style, pat_font_size()) {
        None => None,
        Some(k) => {
            let start = k + pat_font_size().len();
            match find(style.skip(start), pat_quote()) {
                None => None,
                Some(e) => parse_decimal(style.subrange(start, start + e)),
            }
        },
    }
}

pub fn font_size_win(s: &Vec<char>, lo: usize, hi: usize) -> (r: Option<Fixed4>)
    requires
        lo <= hi <= s.len(),
    ensures
        r == font_size_of(s@.subrange(lo as int, hi as int)),
{
    let ghost w = s@.subrange(lo as int, hi as int);
    let fs = vec_font_size();
    let k = match find_in(s, &fs, lo, hi) {
        Some(k) => k,
        None => {
            return None;
        },
    };
    proof {
        lemma_find_win_bounds(s@, fs@, lo as int, hi as int);
    }
    let start = k + fs.len();
    let ghost rs = (k - lo + pat_font_size().len()) as int;
    assert(s@.subrange(start as int, hi as int) =~= w.skip(rs));
    let q = vec_quote();
    let e = match find_in(s, &q, start, hi) {
        Some(e) => e,
        None => {
            return None;
        },
    };
    proof {
        lemma_find_win_bounds(s@, q@, start as int, hi as int);
    }
    assert(s@.subrange(start as int, e as int) =~= w.subrange(rs, rs + (e - start)));
    parse_decimal_window(s, start, e)
}


// ---------------------------------------------------------------------------------------
// Patterns of a `<text>` line.

pub open spec fn pat_tspan() -> Seq<char> {
    seq!['<', 't', 's', 'p', 'a', 'n']
}

pub(crate) fn vec_tspan() -> (v: Vec<char>)
    ensures
        v@ == pat_tspan(),
{
    let v = vec!['<', 't', 's', 'p', 'a', 'n'];
    assert(v@ =~= pat_tspan());
    v
}

pub open spec fn pat_text_open() -> Seq<char> {
    seq!['<', 't', 'e', 'x', 't']
}

pub(crate) fn vec_text_open() -> (v: Vec<char>)
    ensures
        v@ == pat_text_open(),
{
    let v = vec!['<', 't', 'e', 'x', 't'];
    assert(v@ =~= pat_text_open());
    v
}

pub open spec fn pat_gt() -> Seq<char> {
    seq!['>']
}

pub(crate) fn vec_gt() -> (v: Vec<char>)
    ensures
        v@ == pat_gt(),
{
    let v = vec!['>'];
    assert(v@ =~= pat_gt());
    v
}

pub open spec fn pat_text_close() -> Seq<char> {
    seq!['<', '/', 't', 'e', 'x', 't', '>']
}

pub(crate) fn vec_text_close() -> (v: Vec<char>)
    ensures
        v@ == pat_text_close(),
{
    let v = vec!['<', '/', 't', 'e', 'x', 't', '>'];
    assert(v@ =~= pat_text_close());
    v
}

pub open spec fn pat_translate() -> Seq<char> {
    seq!['t', 'r', 'a', 'n', 's', 'f', 'o', 'r', 'm', '=', '"', 't', 'r', 'a', 'n', 's', 'l', 'a', 't', 'e', '(']
}

pub(crate) fn vec_translate() -> (v: Vec<char>)
    ensures
        v@ == pat_translate(),
{
    let v = vec!['t', 'r', 'a', 'n', 's', 'f', 'o', 'r', 'm', '=', '"', 't', 'r', 'a', 'n', 's', 'l', 'a', 't', 'e', '('];
    assert(v@ =~= pat_translate());
    v
}

pub open spec fn pat_rparen() -> Seq<char> {
    seq![')']
}

pub(crate) fn vec_rparen() -> (v: Vec<char>)
    ensures
        v@ == pat_rparen(),
{
    let v = vec![')'];
    assert(v@ =~= pat_rparen());
    v
}

pub open spec fn pat_comma() -> Seq<char> {
    seq![',']
}

pub(crate) fn vec_comma() -> (v: Vec<char>)
    ensures
        v@ == pat_comma(),
{
    let v = vec![','];
    assert(v@ =~= pat_comma());
    v
}

pub open spec fn pat_scale() -> Seq<char> {
    seq!['s', 'c', 'a', 'l', 'e', '(']
}

pub(crate) fn vec_scale() -> (v: Vec<char>)
    ensures
        v@ == pat_scale(),
{
    let v = vec!['s', 'c', 'a', 'l', 'e', '('];
    assert(v@ =~= pat_scale());
    v
}

pub open spec fn pat_sp_x() -> Seq<char> {
    seq![' ', 'x', '=', '"']
}

pub(crate) fn vec_sp_x() -> (v: Vec<char>)
    ensures
        v@ == pat_sp_x(),
{
    let v = vec![' ', 'x', '=', '"'];
    assert(v@ =~= pat_sp_x());
    v
}

pub open spec fn pat_x_eq() -> Seq<char> {
    seq!['x', '=', '"']
}

pub(crate) fn vec_x_eq() -> (v: Vec<char>)
    ensures
        v@ == pat_x_eq(),
{
    let v = vec!['x', '=', '"'];
    assert(v@ =~= pat_x_eq());
    v
}

pub open spec fn pat_sp_y() -> Seq<char> {
    seq![' ', 'y', '=', '"']
}

pub(crate) fn vec_sp_y() -> (v: Vec<char>)
    ensures
        v@ == pat_sp_y(),
{
    let v = vec![' ', 'y', '=', '"'];
    assert(v@ =~= pat_sp_y());
    v
}

pub open spec fn pat_g_open() -> Seq<char> {
    seq!['<', 'g', ' ']
}

pub(crate) fn vec_g_open() -> (v: Vec<char>)
    ensures
        v@ == pat_g_open(),
{
    let v = vec!['<', 'g', ' '];
    assert(v@ =~= pat_g_open());
    v
}

// ---------------------------------------------------------------------------------------
// One line holding a single `<text>` element.

/// What a `<text>` line holds: the origin `x`, the baseline `y` as written, the horizontal
/// scale `S` of `scale(S,1)` when there is one, the wrapper before `<text` (such as
/// `<g clip-path=...>`), the style attributes and the text.
pub ghost struct RunLine {
    pub x: Fixed4,
    pub y: Seq<char>,
    pub scale: Option<Seq<char>>,
    pub lead: Seq<char>,
    pub style: Seq<char>,
    pub payload: Seq<char>,
}

/// Position and style read from the attributes of a `<text>` open tag.
pub ghost struct Placement {
    pub x: Fixed4,
    pub y: Seq<char>,
    pub scale: Option<Seq<char>>,
    pub style: Seq<char>,
}

/// The characters of a Latin header run: ASCII letters and digits, `#/().-` and space.
pub open spec fn payload_char(c: char) -> bool {
    let u = c as u32;
    ||| (0x30 <= u && u <= 0x39)
    ||| (0x41 <= u && u <= 0x5A)
    ||| (0x61 <= u && u <= 0x7A)
    ||| c == '#' || c == '/' || c == '(' || c == ')' || c == '.' || c == '-' || c == ' '
}

pub open spec fn payload_ok(p: Seq<char>) -> bool {
    p.len() > 0 && forall|i: int| 0 <= i < p.len() ==> payload_char(#[trigger] p[i])
}

/// What may stand before `<text`: nothing but whitespace, or a `<g ...>` wrapper.
pub open spec fn lead_ok(lead: Seq<char>) -> bool {
    all_ws(lead) || starts_with(trim_start(lead), pat_g_open())
}

/// `translate(X,Y) scale(S,1)` form; `tf` is where `transform="translate(` starts.
pub open spec fn parse_transform(o: Seq<char>, tf: int) -> Option<Placement> {
    let is = tf + pat_translate().len();
    match find(o.skip(is), pat_rparen()) {
        None => None,
        Some(r) => transform_coords(o, is, is + r),
    }
}

/// The coordinates `X,Y` stand in `o[is..ie]`.
pub open spec fn transform_coords(o: Seq<char>, is: int, ie: int) -> Option<Placement> {
    let coords = o.subrange(is, ie);
    match find(coords, pat_comma()) {
        None => None,
        Some(c) => match parse_decimal(trim(coords.take(c))) {
            None => None,
            Some(x) => transform_scale(o, ie, x, trim(coords.skip(c + 1))),
        },
    }
}

/// The `scale(S,1)` after the translation, which ends at `ie`, and the style after it.
pub open spec fn transform_scale(o: Seq<char>, ie: int, x: Fixed4, y: Seq<char>) -> Option<Placement> {
    match find(o.skip(ie), pat_scale()) {
        None => None,
        Some(sp) => {
            let ss = ie + sp + pat_scale().len();
            match find(o.skip(ss), pat_rparen()) {
                None => None,
                Some(se0) => {
                    let se = ss + se0;
                    let si = o.subrange(ss, se);
                    let sv = match find(si, pat_comma()) {
                        Some(k) => si.take(k),
                        None => si,
                    };
                    match find(o.skip(se), pat_quote()) {
                        None => None,
                        Some(q) => {
                            let style = trim(o.skip(se + q + 1));
                            if marker_font(style) {
                                Some(Placement { x, y, scale: Some(sv), style })
                            } else {
                                None
                            }
                        },
                    }
                },
            }
        },
    }
}

/// `x="X" y="Y"` form.
pub open spec fn parse_xy(o: Seq<char>) -> Option<Placement> {
    match find(o, pat_sp_x()) {
        Some(p) => xy_from(o, p + pat_sp_x().len()),
        None => if starts_with(o, pat_x_eq()) {
            xy_from(o, pat_x_eq().len() as int)
        } else {
            None
        },
    }
}

/// The value of `x` starts at `xp`.
pub open spec fn xy_from(o: Seq<char>, xp: int) -> Option<Placement> {
    match find(o.skip(xp), pat_quote()) {
        None => None,
        Some(r) => {
            let xe = xp + r;
            match parse_decimal(trim(o.subrange(xp, xe))) {
                None => None,
                Some(x) => xy_after_x(o, xe, x),
            }
        },
    }
}

/// The value of `x` ends at `xe`; then `y` and the style.
pub open spec fn xy_after_x(o: Seq<char>, xe: int, x: Fixed4) -> Option<Placement> {
    match find(o.skip(xe), pat_sp_y()) {
        None => None,
        Some(r2) => {
            let yp = xe + r2 + pat_sp_y().len();
            match find(o.skip(yp), pat_quote()) {
                None => None,
                Some(r3) => {
                    let ye = yp + r3;
                    let style = trim(o.skip(ye + 1));
                    if marker_font(style) {
                        Some(Placement { x, y: o.subrange(yp, ye), scale: None, style })
                    } else {
                        None
                    }
                },
            }
        },
    }
}

pub open spec fn parse_placement(o: Seq<char>) -> Option<Placement> {
    match find(o, pat_translate()) {
        Some(tf) => parse_transform(o, tf),
        None => parse_xy(o),
    }
}

/// Reads a line that holds one `<text>` of a Latin header run; `None` for any other line.
pub open spec fn parse_run_line(l: Seq<char>) -> Option<RunLine> {
    if find(l, pat_tspan()) is Some {
        None
    } else {
        match find(l, pat_text_open()) {
            None => None,
            Some(ts) => {
                let lead = l.take(ts);
                let ab = ts + pat_text_open().len();
                if !lead_ok(lead) {
                    None
                } else {
                    match find(l.skip(ab), pat_gt()) {
                        None => None,
                        Some(ter) => {
                            let tea = ab + ter;
                            match rfind(l, pat_text_close()) {
                                None => None,
                                Some(cs) => if cs <= tea + 1 {
                                    None
                                } else {
                                    let payload = l.subrange(tea + 1, cs);
                                    if !payload_ok(payload) {
                                        None
                                    } else {
                                        match parse_placement(l.subrange(ab, tea)) {
                                            None => None,
                                            Some(p) => Some(
                                                RunLine {
                                                    x: p.x,
                                                    y: p.y,
                                                    scale: p.scale,
                                                    lead,
                                                    style: p.style,
                                                    payload,
                                                },
                                            ),
                                        }
                                    }
                                },
                            }
                        },
                    }
                }
            },
        }
    }
}

/// A placement read from a buffer, as windows of the buffer.
pub struct PlacementAt {
    pub x: Fixed4,
    pub y: (usize, usize),
    pub scale: Option<(usize, usize)>,
    pub style: (usize, usize),
}

pub open spec fn win(l: Seq<char>, w: (usize, usize)) -> Seq<char> {
    l.subrange(w.0 as int, w.1 as int)
}

pub open spec fn win_ok(l: Seq<char>, w: (usize, usize)) -> bool {
    w.0 <= w.1 <= l.len()
}

pub open spec fn placement_at(l: Seq<char>, e: PlacementAt, v: Placement) -> bool {
    &&& e.x == v.x
    &&& win_ok(l, e.y) && win(l, e.y) == v.y
    &&& win_ok(l, e.style) && win(l, e.style) == v.style
    &&& match (e.scale, v.scale) {
        (Some(w), Some(sv)) => win_ok(l, w) && win(l, w) == sv,
        (None, None) => true,
        _ => false,
    }
}

pub open spec fn opt_placement_at(l: Seq<char>, e: Option<PlacementAt>, v: Option<Placement>) -> bool {
    match (e, v) {
        (Some(e), Some(v)) => placement_at(l, e, v),
        (None, None) => true,
        _ => false,
    }
}

fn transform_scale_win(l: &Vec<char>, ob: usize, oe: usize, ie: usize, x: Fixed4, y: (usize, usize))
    -> (r: Option<PlacementAt>)
    requires
        ob <= ie <= oe <= l.len(),
        win_ok(l@, y),
    ensures
        opt_placement_at(
            l@,
            r,
            transform_scale(l@.subrange(ob as int, oe as int), ie - ob, x, win(l@, y)),
        ),
{
    let ghost o = l@.subrange(ob as int, oe as int);
    let rp = vec_rparen();
    let comma = vec_comma();
    let sc = vec_scale();
    let quote = vec_quote();
    assert(l@.subrange(ie as int, oe as int) =~= o.skip(ie - ob));
    let sp = match find_in(l, &sc, ie, oe) {
        Some(k) => k,
        None => {
            return None;
        },
    };
    proof {
        lemma_find_win_bounds(l@, sc@, ie as int, oe as int);
    }
    let ss = sp + 6;
    assert(l@.subrange(ss as int, oe as int) =~= o.skip(ss - ob));
    let se = match find_in(l, &rp, ss, oe) {
        Some(k) => k,
        None => {
            return None;
        },
    };
    proof {
        lemma_find_win_bounds(l@, rp@, ss as int, oe as int);
    }
    let ghost si = o.subrange(ss - ob, se - ob);
    assert(l@.subrange(ss as int, se as int) =~= si);
    let sv_end = match find_in(l, &comma, ss, se) {
        Some(k) => k,
        None => se,
    };
    proof {
        lemma_find_win_bounds(l@, comma@, ss as int, se as int);
    }
    assert(l@.subrange(ss as int, sv_end as int) =~= match find(si, pat_comma()) {
        Some(k) => si.take(k),
        None => si,
    });
    assert(l@.subrange(se as int, oe as int) =~= o.skip(se - ob));
    let q = match find_in(l, &quote, se, oe) {
        Some(k) => k,
        None => {
            return None;
        },
    };
    proof {
        lemma_find_win_bounds(l@, quote@, se as int, oe as int);
    }
    assert(l@.subrange(q + 1, oe as int) =~= o.skip(q + 1 - ob));
    let (sa, sb) = trim_win(l, q + 1, oe);
    if !is_marker_font_win(l, sa, sb) {
        return None;
    }
    Some(PlacementAt { x, y, scale: Some((ss, sv_end)), style: (sa, sb) })
}

fn transform_coords_win(l: &Vec<char>, ob: usize, oe: usize, is: usize, ie: usize) -> (r: Option<
    PlacementAt,
>)
    requires
        ob <= is <= ie <= oe <= l.len(),
    ensures
        opt_placement_at(
            l@,
            r,
            transform_coords(l@.subrange(ob as int, oe as int), is - ob, ie - ob),
        ),
{
    let ghost o = l@.subrange(ob as int, oe as int);
    let comma = vec_comma();
    let ghost coords = o.subrange(is - ob, ie - ob);
    assert(l@.subrange(is as int, ie as int) =~= coords);
    let c = match find_in(l, &comma, is, ie) {
        Some(k) => k,
        None => {
            return None;
        },
    };
    proof {
        lemma_find_win_bounds(l@, comma@, is as int, ie as int);
    }
    assert(l@.subrange(is as int, c as int) =~= coords.take(c - is));
    assert(l@.subrange(c + 1, ie as int) =~= coords.skip(c - is + 1));
    let (xa, xb) = trim_win(l, is, c);
    let x = match parse_decimal_window(l, xa, xb) {
        Some(x) => x,
        None => {
            return None;
        },
    };
    let (ya, yb) = trim_win(l, c + 1, ie);
    transform_scale_win(l, ob, oe, ie, x, (ya, yb))
}

fn parse_transform_win(l: &Vec<char>, ob: usize, oe: usize, tf: usize) -> (r: Option<PlacementAt>)
    requires
        ob <= tf,
        tf + pat_translate().len() <= oe <= l.len(),
    ensures
        opt_placement_at(l@, r, parse_transform(l@.subrange(ob as int, oe as int), tf - ob)),
{
    let ghost o = l@.subrange(ob as int, oe as int);
    let rp = vec_rparen();
    let is = tf + 21;
    assert(l@.subrange(is as int, oe as int) =~= o.skip(is - ob));
    let ie = match find_in(l, &rp, is, oe) {
        Some(k) => k,
        None => {
            return None;
        },
    };
    proof {
        lemma_find_win_bounds(l@, rp@, is as int, oe as int);
    }
    transform_coords_win(l, ob, oe, is, ie)
}

fn xy_after_x_win(l: &Vec<char>, ob: usize, oe: usize, xe: usize, x: Fixed4) -> (r: Option<PlacementAt>)
    requires
        ob <= xe <= oe <= l.len(),
    ensures
        opt_placement_at(l@, r, xy_after_x(l@.subrange(ob as int, oe as int), xe - ob, x)),
{
    let ghost o = l@.subrange(ob as int, oe as int);
    let spy = vec_sp_y();
    let quote = vec_quote();
    assert(l@.subrange(xe as int, oe as int) =~= o.skip(xe - ob));
    let r2 = match find_in(l, &spy, xe, oe) {
        Some(k) => k,
        None => {
            return None;
        },
    };
    proof {
        lemma_find_win_bounds(l@, spy@, xe as int, oe as int);
    }
    let yp = r2 + 4;
    assert(l@.subrange(yp as int, oe as int) =~= o.skip(yp - ob));
    let ye = match find_in(l, &quote, yp, oe) {
        Some(k) => k,
        None => {
            return None;
        },
    };
    proof {
        lemma_find_win_bounds(l@, quote@, yp as int, oe as int);
    }
    assert(l@.subrange(yp as int, ye as int) =~= o.subrange(yp - ob, ye - ob));
    assert(l@.subrange(ye + 1, oe as int) =~= o.skip(ye + 1 - ob));
    let (sa, sb) = trim_win(l, ye + 1, oe);
    if !is_marker_font_win(l, sa, sb) {
        return None;
    }
    Some(PlacementAt { x, y: (yp, ye), scale: None, style: (sa, sb) })
}

fn xy_from_win(l: &Vec<char>, ob: usize, oe: usize, xp: usize) -> (r: Option<PlacementAt>)
    requires
        ob <= xp <= oe <= l.len(),
    ensures
        opt_placement_at(l@, r, xy_from(l@.subrange(ob as int, oe as int), xp - ob)),
{
    let ghost o = l@.subrange(ob as int, oe as int);
    let quote = vec_quote();
    assert(l@.subrange(xp as int, oe as int) =~= o.skip(xp - ob));
    let xe = match find_in(l, &quote, xp, oe) {
        Some(k) => k,
        None => {
            return None;
        },
    };
    proof {
        lemma_find_win_bounds(l@, quote@, xp as int, oe as int);
    }
    assert(l@.subrange(xp as int, xe as int) =~= o.subrange(xp - ob, xe - ob));
    let (xa, xb) = trim_win(l, xp, xe);
    let x = match parse_decimal_window(l, xa, xb) {
        Some(x) => x,
        None => {
            return None;
        },
    };
    xy_after_x_win(l, ob, oe, xe, x)
}

fn parse_xy_win(l: &Vec<char>, ob: usize, oe: usize) -> (r: Option<PlacementAt>)
    requires
        ob <= oe <= l.len(),
    ensures
        opt_placement_at(l@, r, parse_xy(l@.subrange(ob as int, oe as int))),
{
    let spx = vec_sp_x();
    match find_in(l, &spx, ob, oe) {
        Some(p) => {
            proof {
                lemma_find_win_bounds(l@, spx@, ob as int, oe as int);
            }
            xy_from_win(l, ob, oe, p + 4)
        },
        None => {
            if starts_with_win(l, ob, oe, &vec_x_eq()) {
                xy_from_win(l, ob, oe, ob + 3)
            } else {
                None
            }
        },
    }
}

fn parse_placement_win(l: &Vec<char>, ob: usize, oe: usize) -> (r: Option<PlacementAt>)
    requires
        ob <= oe <= l.len(),
    ensures
        opt_placement_at(l@, r, parse_placement(l@.subrange(ob as int, oe as int))),
{
    let tr = vec_translate();
    match find_in(l, &tr, ob, oe) {
        Some(tf) => {
            proof {
                lemma_find_win_bounds(l@, tr@, ob as int, oe as int);
            }
            parse_transform_win(l, ob, oe, tf)
        },
        None => parse_xy_win(l, ob, oe),
    }
}

/// A `<text>` line read from a buffer, as windows of the buffer.
pub struct RunLineAt {
    pub x: Fixed4,
    pub y: (usize, usize),
    pub scale: Option<(usize, usize)>,
    pub lead_end: usize,
    pub style: (usize, usize),
    pub payload: (usize, usize),
}

pub open spec fn run_line_at(l: Seq<char>, e: RunLineAt, v: RunLine) -> bool {
    &&& e.x == v.x
    &&& win_ok(l, e.y) && win(l, e.y) == v.y
    &&& win_ok(l, e.style) && win(l, e.style) == v.style
    &&& win_ok(l, e.payload) && win(l, e.payload) == v.payload
    &&& e.lead_end <= l.len() && l.take(e.lead_end as int) == v.lead
    &&& match (e.scale, v.scale) {
        (Some(w), Some(sv)) => win_ok(l, w) && win(l, w) == sv,
        (None, None) => true,
        _ => false,
    }
}

pub open spec fn opt_run_line_at(l: Seq<char>, e: Option<RunLineAt>, v: Option<RunLine>) -> bool {
    match (e, v) {
        (Some(e), Some(v)) => run_line_at(l, e, v),
        (None, None) => true,
        _ => false,
    }
}

pub(crate) fn all_ws_win(l: &Vec<char>, lo: usize, hi: usize) -> (r: bool)
    requires
        lo <= hi <= l.len(),
    ensures
        r == all_ws(l@.subrange(lo as int, hi as int)),
{
    let mut i = lo;
    while i < hi
        invariant
            lo <= i <= hi <= l.len(),
            forall|k: int| lo <= k < i ==> is_ws(#[trigger] l@[k]),
        decreases hi - i,
    {
        if !is_whitespace(l[i]) {
            assert(l@.subrange(lo as int, hi as int)[i - lo] == l@[i as int]);
            return false;
        }
        i = i + 1;
    }
    assert forall|k: int| 0 <= k < hi - lo implies is_ws(
        #[trigger] l@.subrange(lo as int, hi as int)[k],
    ) by {
        assert(l@.subrange(lo as int, hi as int)[k] == l@[lo + k]);
    }
    true
}

fn payload_ok_win(l: &Vec<char>, lo: usize, hi: usize) -> (r: bool)
    requires
        lo <= hi <= l.len(),
    ensures
        r == payload_ok(l@.subrange(lo as int, hi as int)),
{
    if lo == hi {
        return false;
    }
    let mut i = lo;
    while i < hi
        invariant
            lo <= i <= hi <= l.len(),
            forall|k: int| lo <= k < i ==> payload_char(#[trigger] l@[k]),
        decreases hi - i,
    {
        let c = l[i];
        let u = c as u32;
        let ok = (0x30 <= u && u <= 0x39) || (0x41 <= u && u <= 0x5A) || (0x61 <= u && u <= 0x7A)
            || c == '#' || c == '/' || c == '(' || c == ')' || c == '.' || c == '-' || c == ' ';
        if !ok {
            assert(l@.subrange(lo as int, hi as int)[i - lo] == l@[i as int]);
            return false;
        }
        i = i + 1;
    }
    assert forall|k: int| 0 <= k < hi - lo implies payload_char(
        #[trigger] l@.subrange(lo as int, hi as int)[k],
    ) by {
        assert(l@.subrange(lo as int, hi as int)[k] == l@[lo + k]);
    }
    true
}

/// Reads a line holding one `<text>` of a Latin header run.
#[verifier::rlimit(40)]
#[verifier::spinoff_prover]
pub fn parse_ascii_text_run_line(l: &Vec<char>) -> (r: Option<RunLineAt>)
    ensures
        opt_run_line_at(l@, r, parse_run_line(l@)),
{
    let n = l.len();
    assert(l@.subrange(0, n as int) =~= l@);
    if find_in(l, &vec_tspan(), 0, n).is_some() {
        return None;
    }
    let to = vec_text_open();
    let ts = match find_in(l, &to, 0, n) {
        Some(k) => k,
        None => {
            return None;
        },
    };
    proof {
        lemma_find_win_bounds(l@, to@, 0, n as int);
    }
    assert(l@.subrange(0, ts as int) =~= l@.take(ts as int));
    let lead_ok = all_ws_win(l, 0, ts) || {
        let a = trim_start_win(l, 0, ts);
        starts_with_win(l, a, ts, &vec_g_open())
    };
    if !lead_ok {
        return None;
    }
    let ab = ts + 5;
    let gt = vec_gt();
    assert(l@.subrange(ab as int, n as int) =~= l@.skip(ab as int));
    let tea = match find_in(l, &gt, ab, n) {
        Some(k) => k,
        None => {
            return None;
        },
    };
    proof {
        lemma_find_win_bounds(l@, gt@, ab as int, n as int);
    }
    let tc = vec_text_close();
    let cs = match rfind_in(l, &tc, 0, n) {
        Some(k) => k,
        None => {
            return None;
        },
    };
    proof {
        lemma_rfind_to_bounds(l@, tc@, l@.len() - tc@.len());
    }
    if cs <= tea + 1 {
        return None;
    }
    if !payload_ok_win(l, tea + 1, cs) {
        return None;
    }
    match parse_placement_win(l, ab, tea) {
        None => None,
        Some(p) => Some(
            RunLineAt {
                x: p.x,
                y: p.y,
                scale: p.scale,
                lead_end: ts,
                style: p.style,
                payload: (tea + 1, cs),
            },
        ),
    }
}

// ---------------------------------------------------------------------------------------
// Runs being merged, and how a run is written out.

pub open spec fn pat_memo() -> Seq<char> {
    seq!['M', 'E', 'M', 'O']
}

pub(crate) fn vec_memo() -> (v: Vec<char>)
    ensures
        v@ == pat_memo(),
{
    let v = vec!['M', 'E', 'M', 'O'];
    assert(v@ =~= pat_memo());
    v
}

pub open spec fn pat_text_anchor() -> Seq<char> {
    seq!['t', 'e', 'x', 't', '-', 'a', 'n', 'c', 'h', 'o', 'r', '=']
}

pub(crate) fn vec_text_anchor() -> (v: Vec<char>)
    ensures
        v@ == pat_text_anchor(),
{
    let v = vec!['t', 'e', 'x', 't', '-', 'a', 'n', 'c', 'h', 'o', 'r', '='];
    assert(v@ =~= pat_text_anchor());
    v
}

pub open spec fn pat_anchor_middle() -> Seq<char> {
    seq![' ', 't', 'e', 'x', 't', '-', 'a', 'n', 'c', 'h', 'o', 'r', '=', '"', 'm', 'i', 'd', 'd', 'l', 'e', '"']
}

pub(crate) fn vec_anchor_middle() -> (v: Vec<char>)
    ensures
        v@ == pat_anchor_middle(),
{
    let v = vec![' ', 't', 'e', 'x', 't', '-', 'a', 'n', 'c', 'h', 'o', 'r', '=', '"', 'm', 'i', 'd', 'd', 'l', 'e', '"'];
    assert(v@ =~= pat_anchor_middle());
    v
}

pub open spec fn pat_tf_open() -> Seq<char> {
    seq!['<', 't', 'e', 'x', 't', ' ', 't', 'r', 'a', 'n', 's', 'f', 'o', 'r', 'm', '=', '"', 't', 'r', 'a', 'n', 's', 'l', 'a', 't', 'e', '(']
}

pub(crate) fn vec_tf_open() -> (v: Vec<char>)
    ensures
        v@ == pat_tf_open(),
{
    let v = vec!['<', 't', 'e', 'x', 't', ' ', 't', 'r', 'a', 'n', 's', 'f', 'o', 'r', 'm', '=', '"', 't', 'r', 'a', 'n', 's', 'l', 'a', 't', 'e', '('];
    assert(v@ =~= pat_tf_open());
    v
}

pub open spec fn pat_scale_mid() -> Seq<char> {
    seq![')', ' ', 's', 'c', 'a', 'l', 'e', '(']
}

pub(crate) fn vec_scale_mid() -> (v: Vec<char>)
    ensures
        v@ == pat_scale_mid(),
{
    let v = vec![')', ' ', 's', 'c', 'a', 'l', 'e', '('];
    assert(v@ =~= pat_scale_mid());
    v
}

pub open spec fn pat_scale_close() -> Seq<char> {
    seq![',', '1', ')', '"', ' ']
}

pub(crate) fn vec_scale_close() -> (v: Vec<char>)
    ensures
        v@ == pat_scale_close(),
{
    let v = vec![',', '1', ')', '"', ' '];
    assert(v@ =~= pat_scale_close());
    v
}

pub open spec fn pat_x_open() -> Seq<char> {
    seq!['<', 't', 'e', 'x', 't', ' ', 'x', '=', '"']
}

pub(crate) fn vec_x_open() -> (v: Vec<char>)
    ensures
        v@ == pat_x_open(),
{
    let v = vec!['<', 't', 'e', 'x', 't', ' ', 'x', '=', '"'];
    assert(v@ =~= pat_x_open());
    v
}

pub open spec fn pat_y_mid() -> Seq<char> {
    seq!['"', ' ', 'y', '=', '"']
}

pub(crate) fn vec_y_mid() -> (v: Vec<char>)
    ensures
        v@ == pat_y_mid(),
{
    let v = vec!['"', ' ', 'y', '=', '"'];
    assert(v@ =~= pat_y_mid());
    v
}

pub open spec fn pat_attr_close() -> Seq<char> {
    seq!['"', ' ']
}

pub(crate) fn vec_attr_close() -> (v: Vec<char>)
    ensures
        v@ == pat_attr_close(),
{
    let v = vec!['"', ' '];
    assert(v@ =~= pat_attr_close());
    v
}

/// A run of merged glyphs: its text, baseline, scale, wrapper and style (without length
/// attributes), the origins of its first and last glyph, and its font size.
pub ghost struct Run {
    pub text: Seq<char>,
    pub y: Seq<char>,
    pub scale: Option<Seq<char>>,
    pub lead: Seq<char>,
    pub style: Seq<char>,
    pub first_x: Fixed4,
    pub last_x: Fixed4,
    pub font_size: Fixed4,
}

/// The font size taken when the style gives none: 16.
pub open spec fn default_font_size() -> Fixed4 {
    Fixed4 { negative: false, units: 160000 }
}

/// A large `MEMO` label (font size at least 20) is written centred on its glyphs.
pub open spec fn centered(r: Run) -> bool {
    r.text == pat_memo() && fixed_value(r.font_size) >= 200000
}

pub open spec fn run_x(r: Run) -> Fixed4 {
    if centered(r) {
        center_of_four(r.first_x, r.last_x)
    } else {
        r.first_x
    }
}

pub open spec fn run_style(r: Run) -> Seq<char> {
    let st = crate::decimal::trim_trailing(r.style, '>');
    if centered(r) && find(st, pat_text_anchor()) is None {
        st + pat_anchor_middle()
    } else {
        st
    }
}

/// Where a run is placed: `transform="translate(X,Y) scale(S,1)"` when it has a scale,
/// `x="X" y="Y"` otherwise.
pub open spec fn position_text(scale: Option<Seq<char>>, x: Fixed4, y: Seq<char>) -> Seq<char> {
    match scale {
        Some(sv) => pat_tf_open() + format_fixed(x) + seq![','] + y + pat_scale_mid() + sv
            + pat_scale_close(),
        None => pat_x_open() + format_fixed(x) + pat_y_mid() + y + pat_attr_close(),
    }
}

/// The `<text>` line written for a run, keeping its scale when it has one.
pub open spec fn flush_text(r: Run) -> Seq<char> {
    r.lead + position_text(r.scale, run_x(r), r.y) + run_style(r) + seq!['>'] + r.text
        + pat_text_close() + seq!['\n']
}

pub open spec fn flush(p: Option<Run>) -> Seq<char> {
    match p {
        Some(r) => flush_text(r),
        None => Seq::empty(),
    }
}

/// One line: what it writes, and the run pending after it. A `<text>` of a header run
/// joins the pending run when baseline, scale and style agree exactly; otherwise the
/// pending run is written and the line starts a new one. Any other line writes the pending
/// run and then itself.
pub open spec fn merge_step(l: Seq<char>, p: Option<Run>) -> (Seq<char>, Option<Run>) {
    match parse_run_line(l) {
        None => (flush(p) + l + seq!['\n'], None),
        Some(rl) => {
            let st = strip_text_length(rl.style);
            match p {
                Some(e) => if joins(e, rl, st) {
                    (Seq::empty(), Some(extend_run(e, rl)))
                } else {
                    (flush(p), Some(new_run(rl, st)))
                },
                None => (Seq::empty(), Some(new_run(rl, st))),
            }
        },
    }
}

/// A header glyph joins the pending run when baseline, scale and style agree exactly.
pub open spec fn joins(e: Run, rl: RunLine, st: Seq<char>) -> bool {
    e.y == rl.y && e.scale == rl.scale && e.style == st
}

/// The pending run with one more glyph appended.
pub open spec fn extend_run(e: Run, rl: RunLine) -> Run {
    Run {
        text: e.text + rl.payload,
        y: e.y,
        scale: e.scale,
        lead: e.lead,
        style: e.style,
        first_x: e.first_x,
        last_x: rl.x,
        font_size: e.font_size,
    }
}

/// A run started by one glyph line, with its style `st` stripped of length attributes.
pub open spec fn new_run(rl: RunLine, st: Seq<char>) -> Run {
    Run {
        text: rl.payload,
        y: rl.y,
        scale: rl.scale,
        lead: rl.lead,
        style: st,
        first_x: rl.x,
        last_x: rl.x,
        font_size: match font_size_of(st) {
            Some(f) => f,
            None => default_font_size(),
        },
    }
}

pub open spec fn merge_lines(ls: Seq<Seq<char>>, p: Option<Run>) -> Seq<char>
    decreases ls.len(),
{
    if ls.len() == 0 {
        flush(p)
    } else {
        merge_step(ls[0], p).0 + merge_lines(ls.drop_first(), merge_step(ls[0], p).1)
    }
}

pub open spec fn strip_cr(l: Seq<char>) -> Seq<char> {
    if l.len() > 0 && l.last() == '\r' {
        l.drop_last()
    } else {
        l
    }
}

/// The lines of `s` after the partial line `cur` (what `str::lines` gives: split at `\n`,
/// a `\r` before it dropped, no empty line after a final `\n`).
pub open spec fn lines_from(s: Seq<char>, cur: Seq<char>) -> Seq<Seq<char>>
    decreases s.len(),
{
    if s.len() == 0 {
        if cur.len() == 0 {
            Seq::empty()
        } else {
            seq![cur]
        }
    } else if s[0] == '\n' {
        seq![strip_cr(cur)] + lines_from(s.drop_first(), Seq::empty())
    } else {
        lines_from(s.drop_first(), cur.push(s[0]))
    }
}

pub open spec fn lines(s: Seq<char>) -> Seq<Seq<char>> {
    lines_from(s, Seq::empty())
}

/// The SVG with its header runs merged.
pub open spec fn merged_runs(svg: Seq<char>) -> Seq<char> {
    merge_lines(lines(svg), None)
}

/// A run being merged.
pub struct AsciiRun {
    pub text: Vec<char>,
    pub y: Vec<char>,
    pub scale: Option<Vec<char>>,
    pub lead: Vec<char>,
    pub style_attrs: Vec<char>,
    pub first_x: Fixed4,
    pub last_x: Fixed4,
    pub font_size: Fixed4,
}

pub open spec fn opt_chars_view(o: Option<Vec<char>>) -> Option<Seq<char>> {
    match o {
        Some(v) => Some(v@),
        None => None,
    }
}

impl View for AsciiRun {
    type V = Run;

    open spec fn view(&self) -> Run {
        Run {
            text: self.text@,
            y: self.y@,
            scale: opt_chars_view(self.scale),
            lead: self.lead@,
            style: self.style_attrs@,
            first_x: self.first_x,
            last_x: self.last_x,
            font_size: self.font_size,
        }
    }
}

pub open spec fn pending_view(p: Option<AsciiRun>) -> Option<Run> {
    match p {
        Some(r) => Some(r@),
        None => None,
    }
}

/// A copy of `l[lo..hi]`.
pub(crate) fn window_vec(l: &Vec<char>, lo: usize, hi: usize) -> (r: Vec<char>)
    requires
        lo <= hi <= l.len(),
    ensures
        r@ == l@.subrange(lo as int, hi as int),
{
    let mut r: Vec<char> = Vec::new();
    let mut i = lo;
    while i < hi
        invariant
            lo <= i <= hi <= l.len(),
            r@ == l@.subrange(lo as int, i as int),
        decreases hi - i,
    {
        r.push(l[i]);
        assert(l@.subrange(lo as int, i + 1) =~= l@.subrange(lo as int, i as int).push(l@[i as int]));
        i = i + 1;
    }
    r
}

/// Appends `l[lo..hi]` to `v`.
pub(crate) fn extend_window(v: &mut Vec<char>, l: &Vec<char>, lo: usize, hi: usize)
    requires
        lo <= hi <= l.len(),
    ensures
        final(v)@ == old(v)@ + l@.subrange(lo as int, hi as int),
{
    let mut i = lo;
    while i < hi
        invariant
            lo <= i <= hi <= l.len(),
            v@ == old(v)@ + l@.subrange(lo as int, i as int),
        decreases hi - i,
    {
        v.push(l[i]);
        assert(l@.subrange(lo as int, i + 1) =~= l@.subrange(lo as int, i as int).push(l@[i as int]));
        i = i + 1;
    }
}

/// Whether `a` equals `l[lo..hi]`.
pub(crate) fn eq_window(a: &Vec<char>, l: &Vec<char>, lo: usize, hi: usize) -> (r: bool)
    requires
        lo <= hi <= l.len(),
    ensures
        r == (a@ == l@.subrange(lo as int, hi as int)),
{
    if a.len() != hi - lo {
        return false;
    }
    let mut k: usize = 0;
    while k < a.len()
        invariant
            a.len() == hi - lo,
            lo <= hi <= l.len(),
            k <= a.len(),
            forall|j: int| 0 <= j < k ==> a@[j] == l@[lo + j],
        decreases a.len() - k,
    {
        if a[k] != l[lo + k] {
            assert(l@.subrange(lo as int, hi as int)[k as int] == l@[lo + k]);
            return false;
        }
        k = k + 1;
    }
    assert(a@ =~= l@.subrange(lo as int, hi as int));
    true
}

fn eq_chars(a: &Vec<char>, b: &Vec<char>) -> (r: bool)
    ensures
        r == (a@ == b@),
{
    assert(b@.subrange(0, b@.len() as int) =~= b@);
    eq_window(a, b, 0, b.len())
}

/// Appends all of `v` to `out`.
pub(crate) fn push_all(out: &mut String, v: &Vec<char>)
    ensures
        final(out)@ == old(out)@ + v@,
{
    push_chars(out, v, 0, v.len());
    assert(v@.subrange(0, v@.len() as int) =~= v@);
}

fn push_position(out: &mut String, scale: &Option<Vec<char>>, x: Fixed4, y: &Vec<char>)
    ensures
        final(out)@ == old(out)@ + position_text(opt_chars_view(*scale), x, y@),
{
    let ghost o0 = out@;
    match scale {
        Some(sv) => {
            push_all(out, &vec_tf_open());
            push_fixed(out, x);
            push_char(out, ',');
            push_all(out, y);
            push_all(out, &vec_scale_mid());
            push_all(out, sv);
            push_all(out, &vec_scale_close());
        },
        None => {
            push_all(out, &vec_x_open());
            push_fixed(out, x);
            push_all(out, &vec_y_mid());
            push_all(out, y);
            push_all(out, &vec_attr_close());
        },
    }
    assert(out@ =~= o0 + position_text(opt_chars_view(*scale), x, y@));
}

fn is_centered(run: &AsciiRun) -> (r: bool)
    ensures
        r == centered(run@),
{
    let is_memo = eq_chars(&run.text, &vec_memo());
    is_memo && !run.font_size.negative && run.font_size.units >= 200000
}

fn run_style_exec(run: &AsciiRun) -> (r: Vec<char>)
    ensures
        r@ == run_style(run@),
{
    let mut style = window_vec(&run.style_attrs, 0, run.style_attrs.len());
    assert(run.style_attrs@.subrange(0, run.style_attrs@.len() as int) =~= run.style_attrs@);
    crate::decimal::truncate_trailing(&mut style, '>');
    if is_centered(run) {
        let ta = vec_text_anchor();
        assert(style@.subrange(0, style@.len() as int) =~= style@);
        if find_in(&style, &ta, 0, style.len()).is_none() {
            let am = vec_anchor_middle();
            extend_window(&mut style, &am, 0, am.len());
            assert(am@.subrange(0, am@.len() as int) =~= am@);
        }
    }
    style
}

/// Writes out the pending run, if there is one, and leaves none pending.
pub fn flush_pending(out: &mut String, pending: &mut Option<AsciiRun>)
    ensures
        final(out)@ == old(out)@ + flush(pending_view(*old(pending))),
        *final(pending) is None,
{
    let run = match pending.take() {
        Some(r) => r,
        None => {
            assert(old(out)@ + Seq::<char>::empty() =~= old(out)@);
            return;
        },
    };
    let x = if is_centered(&run) {
        center_of_four_exec(run.first_x, run.last_x)
    } else {
        run.first_x
    };
    let style = run_style_exec(&run);
    let ghost o0 = out@;
    push_all(out, &run.lead);
    push_position(out, &run.scale, x, &run.y);
    push_all(out, &style);
    push_char(out, '>');
    push_all(out, &run.text);
    push_all(out, &vec_text_close());
    push_char(out, '\n');
    assert(out@ =~= o0 + flush_text(run@));
}

/// The run a header glyph line starts, its style `st` already stripped.
fn start_run(l: &Vec<char>, rl: &RunLineAt, st: Vec<char>, Ghost(v): Ghost<RunLine>) -> (r: AsciiRun)
    requires
        run_line_at(l@, *rl, v),
        st@ == strip_text_length(v.style),
    ensures
        r@ == new_run(v, st@),
{
    let fs = match font_size_win(&st, 0, st.len()) {
        Some(f) => f,
        None => Fixed4 { negative: false, units: 160000 },
    };
    assert(st@.subrange(0, st@.len() as int) =~= st@);
    assert(l@.subrange(0, rl.lead_end as int) =~= l@.take(rl.lead_end as int));
    let scale = match rl.scale {
        Some(w) => Some(window_vec(l, w.0, w.1)),
        None => None,
    };
    AsciiRun {
        text: window_vec(l, rl.payload.0, rl.payload.1),
        y: window_vec(l, rl.y.0, rl.y.1),
        scale,
        lead: window_vec(l, 0, rl.lead_end),
        style_attrs: st,
        first_x: rl.x,
        last_x: rl.x,
        font_size: fs,
    }
}

/// Handles one line: a header glyph joins or starts the pending run; any other line writes
/// the pending run and then itself.
fn process_line(out: &mut String, pending: &mut Option<AsciiRun>, l: &Vec<char>)
    ensures
        final(out)@ == old(out)@ + merge_step(l@, pending_view(*old(pending))).0,
        pending_view(*final(pending)) == merge_step(l@, pending_view(*old(pending))).1,
{
    let ghost pv = pending_view(*pending);
    let old_p = pending.take();
    match parse_ascii_text_run_line(l) {
        None => {
            let mut p2 = old_p;
            flush_pending(out, &mut p2);
            push_all(out, l);
            push_char(out, '\n');
            assert(out@ =~= old(out)@ + merge_step(l@, pv).0);
        },
        Some(rl) => {
            let ghost v = parse_run_line(l@).unwrap();
            let st = strip_text_length_win(l, rl.style.0, rl.style.1);
            match old_p {
                Some(mut e) => {
                    let same_scale = match (&e.scale, rl.scale) {
                        (Some(a), Some(w)) => eq_window(a, l, w.0, w.1),
                        (None, None) => true,
                        _ => false,
                    };
                    let same = eq_window(&e.y, l, rl.y.0, rl.y.1) && same_scale && eq_chars(
                        &e.style_attrs,
                        &st,
                    );
                    if same {
                        extend_window(&mut e.text, l, rl.payload.0, rl.payload.1);
                        e.last_x = rl.x;
                        *pending = Some(e);
                        assert(out@ =~= old(out)@ + Seq::<char>::empty());
                    } else {
                        let mut p2 = Some(e);
                        flush_pending(out, &mut p2);
                        *pending = Some(start_run(l, &rl, st, Ghost(v)));
                    }
                },
                None => {
                    *pending = Some(start_run(l, &rl, st, Ghost(v)));
                    assert(out@ =~= old(out)@ + Seq::<char>::empty());
                },
            }
        },
    }
}

proof fn lemma_merge_lines_cons(l: Seq<char>, rest: Seq<Seq<char>>, p: Option<Run>)
    ensures
        merge_lines(seq![l] + rest, p) == merge_step(l, p).0 + merge_lines(rest, merge_step(l, p).1),
{
    let ls = seq![l] + rest;
    assert(ls[0] == l);
    assert(ls.drop_first() =~= rest);
}

/// Merges the consecutive glyphs of Latin header runs (scene markers `S#1.`, `PAGE`,
/// `MEMO`) that share baseline, scale and style into one `<text>` per run, so that the
/// replacement font lays the word out with its natural advance. Every other line is kept.
pub fn merge_ascii_text_runs(svg: &str) -> (r: String)
    ensures
        r@ == merged_runs(svg@),
{
    let cs = crate::text::chars_of(svg);
    let mut out = String::new();
    let mut pending: Option<AsciiRun> = None;
    let mut cur: Vec<char> = Vec::new();
    let mut i: usize = 0;
    assert(cs@.skip(0) =~= cs@);
    assert(out@ =~= Seq::<char>::empty());
    while i < cs.len()
        invariant
            i <= cs.len(),
            cs@ == svg@,
            out@ + merge_lines(lines_from(cs@.skip(i as int), cur@), pending_view(pending))
                == merged_runs(svg@),
        decreases cs.len() - i,
    {
        let ghost rest = cs@.skip(i as int);
        assert(rest.drop_first() =~= cs@.skip(i + 1));
        assert(rest[0] == cs@[i as int]);
        let ghost c0 = cur@;
        if cs[i] == '\n' {
            let n = cur.len();
            if n > 0 && cur[n - 1] == '\r' {
                assert(cur@.drop_last() =~= cur@.subrange(0, n - 1));
                cur.pop();
            }
            assert(cur@ == strip_cr(c0));
            let ghost o0 = out@;
            let ghost p0 = pending_view(pending);
            let ghost tail = lines_from(cs@.skip(i + 1), Seq::empty());
            process_line(&mut out, &mut pending, &cur);
            proof {
                assert(lines_from(rest, c0) == seq![cur@] + tail);
                lemma_merge_lines_cons(cur@, tail, p0);
                assert(o0 + merge_lines(seq![cur@] + tail, p0) =~= out@ + merge_lines(
                    tail,
                    pending_view(pending),
                ));
            }
            cur = Vec::new();
            assert(cur@ =~= Seq::<char>::empty());
        } else {
            cur.push(cs[i]);
            assert(lines_from(rest, c0) == lines_from(cs@.skip(i + 1), c0.push(cs@[i as int])));
        }
        i = i + 1;
    }
    assert(cs@.skip(i as int) =~= Seq::<char>::empty());
    let ghost o0 = out@;
    let ghost p0 = pending_view(pending);
    if cur.len() > 0 {
        process_line(&mut out, &mut pending, &cur);
        proof {
            assert(seq![cur@] + Seq::<Seq<char>>::empty() =~= seq![cur@]);
            lemma_merge_lines_cons(cur@, Seq::empty(), p0);
            assert(merge_lines(Seq::<Seq<char>>::empty(), pending_view(pending)) == flush(
                pending_view(pending),
            ));
        }
    } else {
        assert(merge_lines(Seq::<Seq<char>>::empty(), p0) == flush(p0));
    }
    let ghost o1 = out@;
    let ghost p1 = pending_view(pending);
    flush_pending(&mut out, &mut pending);
    assert(out@ =~= merged_runs(svg@));
    out
}

/// The lines, each ended by a newline.
pub open spec fn joined_lines(ls: Seq<Seq<char>>) -> Seq<char>
    decreases ls.len(),
{
    if ls.len() == 0 {
        Seq::empty()
    } else {
        ls[0] + seq!['\n'] + joined_lines(ls.drop_first())
    }
}

proof fn lemma_plain_lines_kept(ls: Seq<Seq<char>>)
    requires
        forall|k: int| 0 <= k < ls.len() ==> parse_run_line(#[trigger] ls[k]) is None,
    ensures
        merge_lines(ls, None) == joined_lines(ls),
    decreases ls.len(),
{
    if ls.len() > 0 {
        assert(parse_run_line(ls[0]) is None);
        assert forall|k: int| 0 <= k < ls.drop_first().len() implies parse_run_line(
            #[trigger] ls.drop_first()[k],
        ) is None by {
            assert(ls.drop_first()[k] == ls[k + 1]);
        }
        lemma_plain_lines_kept(ls.drop_first());
        assert(flush(None) + ls[0] + seq!['\n'] =~= ls[0] + seq!['\n']);
    }
}

/// An SVG none of whose lines is a glyph of a Latin header run (Korean body text, shapes,
/// any `<tspan>` line) comes out line for line as it went in, each line ended by a newline.
pub proof fn law_plain_lines_kept(svg: Seq<char>)
    requires
        forall|k: int| 0 <= k < lines(svg).len() ==> parse_run_line(#[trigger] lines(svg)[k]) is None,
    ensures
        merged_runs(svg) == joined_lines(lines(svg)),
{
    lemma_plain_lines_kept(lines(svg));
}

/// Glyphs of different style, baseline or scale never share a run (so the bold dashes of a
/// page number `- 2 -` and its digit in another font stay apart): when a header glyph's
/// key differs from the pending run's, the pending run is written out whole and the glyph
/// starts a run of its own, with its own key.
pub proof fn law_key_change_ends_run(l: Seq<char>, e: Run)
    requires
        parse_run_line(l) is Some,
        !joins(e, parse_run_line(l).unwrap(), strip_text_length(parse_run_line(l).unwrap().style)),
    ensures
        ({
            let rl = parse_run_line(l).unwrap();
            let (written, next) = merge_step(l, Some(e));
            &&& written == flush_text(e)
            &&& next == Some(new_run(rl, strip_text_length(rl.style)))
            &&& next.unwrap().text == rl.payload
            &&& next.unwrap().y == rl.y
            &&& next.unwrap().scale == rl.scale
        }),
{
}

/// A header glyph whose scale (`scale(S,1)`, or having one when the run has none), baseline
/// or stripped style differs from the pending run's never joins it: the pending run is
/// written out whole, and the glyph starts a new run of its own text, with its own origin,
/// baseline and scale.
pub proof fn law_glyph_with_other_key_starts_new_run(l: Seq<char>, e: Run)
    requires
        parse_run_line(l) matches Some(rl) && (rl.scale != e.scale || rl.y != e.y
            || strip_text_length(rl.style) != e.style),
    ensures
        ({
            let rl = parse_run_line(l).unwrap();
            let (written, next) = merge_step(l, Some(e));
            &&& written == flush_text(e)
            &&& next matches Some(n) && n.text == rl.payload && n.first_x == rl.x && n.last_x
                == rl.x && n.y == rl.y && n.scale == rl.scale && n.lead == rl.lead && n.style
                == strip_text_length(rl.style)
        }),
{
}

/// A header glyph with the pending run's baseline, scale and stripped style joins it: nothing
/// is written yet, its text is appended, and the run keeps its first origin, baseline, scale
/// and style while its last origin becomes the glyph's.
pub proof fn law_glyph_with_same_key_joins_run(l: Seq<char>, e: Run)
    requires
        parse_run_line(l) matches Some(rl) && rl.scale == e.scale && rl.y == e.y
            && strip_text_length(rl.style) == e.style,
    ensures
        ({
            let rl = parse_run_line(l).unwrap();
            let (written, next) = merge_step(l, Some(e));
            &&& written == Seq::<char>::empty()
            &&& next matches Some(n) && n.text == e.text + rl.payload && n.first_x == e.first_x
                && n.last_x == rl.x && n.y == e.y && n.scale == e.scale && n.lead == e.lead
                && n.style == e.style && n.font_size == e.font_size
        }),
{
}

/// Two header glyph lines whose scales differ (or of which one has a scale and the other
/// none) are written as two `<text>` elements, each from a run of its own glyph, with its
/// own origin and scale.
pub proof fn law_two_glyphs_of_different_scale_stay_apart(l1: Seq<char>, l2: Seq<char>)
    requires
        parse_run_line(l1) matches Some(r1) && parse_run_line(l2) matches Some(r2) && r1.scale
            != r2.scale,
    ensures
        ({
            let r1 = parse_run_line(l1).unwrap();
            let r2 = parse_run_line(l2).unwrap();
            let n1 = new_run(r1, strip_text_length(r1.style));
            let n2 = new_run(r2, strip_text_length(r2.style));
            &&& merge_lines(seq![l1, l2], None) == flush_text(n1) + flush_text(n2)
            &&& n1.scale == r1.scale && n1.first_x == r1.x && n1.text == r1.payload
            &&& n2.scale == r2.scale && n2.first_x == r2.x && n2.text == r2.payload
        }),
{
    let ls = seq![l1, l2];
    let r1 = parse_run_line(l1).unwrap();
    let n1 = new_run(r1, strip_text_length(r1.style));
    assert(ls[0] == l1);
    assert(merge_step(l1, None) == (Seq::<char>::empty(), Some(n1)));
    assert(ls.drop_first() =~= seq![l2]);
    assert(seq![l2].drop_first() =~= Seq::<Seq<char>>::empty());
    law_glyph_with_other_key_starts_new_run(l2, n1);
    let step2 = merge_step(l2, Some(n1));
    assert(merge_lines(seq![l2], Some(n1)) == step2.0 + merge_lines(
        Seq::<Seq<char>>::empty(),
        step2.1,
    ));
    assert(merge_lines(ls, None) == Seq::<char>::empty() + merge_lines(seq![l2], Some(n1)));
    assert(Seq::<char>::empty() + merge_lines(seq![l2], Some(n1)) =~= merge_lines(
        seq![l2],
        Some(n1),
    ));
}

} // verus!
