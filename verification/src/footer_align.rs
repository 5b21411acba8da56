//! Aligning the page-number box of a master-page footer with the title box beside it.
//!
//! In a master page, the page-number box is the text box that holds a page number, and
//! the title box is a text box with text and no page number or picture. Both have the same
//! height and are centred vertically, so giving the page-number box the title box's
//! vertical offset puts the two texts on one baseline.
use vstd::prelude::*;
use std::collections::HashMap;
use crate::errors::HwpError;
use crate::model::{
    shape_common, with_vertical_offset, AutoNumberType, Control, MasterPage, Paragraph, RawRecord,
    Section, SectionDef, ShapeObject, HWPTAG_CTRL_HEADER,
};
use crate::page_numbering::{
    is_render_error, ok_count_json, ok_count_reply, other_sections_unchanged, section_out_of_range,
    DocumentCore,
};
use crate::text::{all_ws, chars_of, is_whitespace, string_of};

verus! {

/// The part a text box of a master page plays in its footer.
#[derive(Clone, Copy, Debug, PartialEq, Eq, Structural)]
pub enum FooterRole {
    PageNumber,
    Title,
    Other,
}

pub open spec fn is_page_autonumber(c: Control) -> bool {
    c matches Control::AutoNumber(an) && an.number_type == AutoNumberType::Page
}

pub open spec fn is_picture_control(c: Control) -> bool {
    ||| c is Picture
    ||| (c matches Control::Shape(s) && *s is Picture)
}

pub open spec fn para_has_page_number(p: Paragraph) -> bool {
    exists|j: int| 0 <= j < p.controls@.len() && is_page_autonumber(#[trigger] p.controls@[j])
}

pub open spec fn para_has_picture(p: Paragraph) -> bool {
    exists|j: int| 0 <= j < p.controls@.len() && is_picture_control(#[trigger] p.controls@[j])
}

pub open spec fn para_has_text(p: Paragraph) -> bool {
    !all_ws(p.text@)
}

pub open spec fn box_has_page_number(ps: Seq<Paragraph>) -> bool {
    exists|i: int| 0 <= i < ps.len() && para_has_page_number(#[trigger] ps[i])
}

pub open spec fn box_has_picture(ps: Seq<Paragraph>) -> bool {
    exists|i: int| 0 <= i < ps.len() && para_has_picture(#[trigger] ps[i])
}

pub open spec fn box_has_text(ps: Seq<Paragraph>) -> bool {
    exists|i: int| 0 <= i < ps.len() && para_has_text(#[trigger] ps[i])
}

/// The role of a shape: a text box with a page number is the page-number box; one with
/// text and neither a page number nor a picture is the title box.
pub open spec fn footer_role(s: ShapeObject) -> FooterRole {
    match s {
        ShapeObject::Drawing(d) => match d.drawing.text_box {
            Some(tb) => if box_has_page_number(tb.paragraphs@) {
                FooterRole::PageNumber
            } else if box_has_text(tb.paragraphs@) && !box_has_picture(tb.paragraphs@) {
                FooterRole::Title
            } else {
                FooterRole::Other
            },
            None => FooterRole::Other,
        },
        _ => FooterRole::Other,
    }
}

/// Whether the text holds nothing but whitespace.
pub fn text_is_blank(s: &String) -> (r: bool)
    ensures
        r == all_ws(s@),
{
    let cs = chars_of(s.as_str());
    let mut i: usize = 0;
    while i < cs.len()
        invariant
            i <= cs.len(),
            cs@ == s@,
            forall|k: int| 0 <= k < i ==> crate::text::is_ws(#[trigger] cs@[k]),
        decreases cs.len() - i,
    {
        if !is_whitespace(cs[i]) {
            return false;
        }
        i = i + 1;
    }
    true
}

/// Whether a paragraph holds a page number, and whether it holds a picture.
fn para_flags(p: &Paragraph) -> (r: (bool, bool))
    ensures
        r.0 == para_has_page_number(*p),
        r.1 == para_has_picture(*p),
{
    let mut has_page = false;
    let mut has_picture = false;
    let mut j: usize = 0;
    while j < p.controls.len()
        invariant
            j <= p.controls@.len(),
            has_page == exists|k: int| 0 <= k < j && is_page_autonumber(#[trigger] p.controls@[k]),
            has_picture == exists|k: int|
                0 <= k < j && is_picture_control(#[trigger] p.controls@[k]),
        decreases p.controls@.len() - j,
    {
        match &p.controls[j] {
            Control::AutoNumber(an) => {
                if an.number_type == AutoNumberType::Page {
                    has_page = true;
                }
            },
            Control::Picture(_) => {
                has_picture = true;
            },
            Control::Shape(s) => {
                if let ShapeObject::Picture(_) = &**s {
                    has_picture = true;
                }
            },
            _ => {},
        }
        j = j + 1;
    }
    (has_page, has_picture)
}

/// The footer role of a shape.
pub fn shape_footer_role(shape: &ShapeObject) -> (role: FooterRole)
    ensures
        role == footer_role(*shape),
{
    let tb = match shape {
        ShapeObject::Drawing(d) => match &d.drawing.text_box {
            Some(t) => t,
            None => {
                return FooterRole::Other;
            },
        },
        _ => {
            return FooterRole::Other;
        },
    };
    let mut has_autonumber_page = false;
    let mut has_text = false;
    let mut has_picture = false;
    let mut i: usize = 0;
    while i < tb.paragraphs.len()
        invariant
            i <= tb.paragraphs@.len(),
            has_autonumber_page == exists|k: int|
                0 <= k < i && para_has_page_number(#[trigger] tb.paragraphs@[k]),
            has_text == exists|k: int| 0 <= k < i && para_has_text(#[trigger] tb.paragraphs@[k]),
            has_picture == exists|k: int|
                0 <= k < i && para_has_picture(#[trigger] tb.paragraphs@[k]),
        decreases tb.paragraphs@.len() - i,
    {
        let p = &tb.paragraphs[i];
        if !text_is_blank(&p.text) {
            has_text = true;
        }
        let (pn, pic) = para_flags(p);
        if pn {
            has_autonumber_page = true;
        }
        if pic {
            has_picture = true;
        }
        i = i + 1;
    }
    if has_autonumber_page {
        FooterRole::PageNumber
    } else if has_text && !has_picture {
        FooterRole::Title
    } else {
        FooterRole::Other
    }
}

// ---------------------------------------------------------------------------------------
// The vertical offset of the last box with a given role among a master page's top-level
// controls, scanning paragraphs and controls in order.

pub open spec fn last_role_voff_controls(cs: Seq<Control>, role: FooterRole, acc: Option<u32>)
    -> Option<u32>
    decreases cs.len(),
{
    if cs.len() == 0 {
        acc
    } else {
        let prev = last_role_voff_controls(cs.drop_last(), role, acc);
        match cs.last() {
            Control::Shape(s) => if footer_role(*s) == role {
                Some(shape_common(*s).vertical_offset)
            } else {
                prev
            },
            _ => prev,
        }
    }
}

pub open spec fn last_role_voff_paras(ps: Seq<Paragraph>, role: FooterRole, acc: Option<u32>)
    -> Option<u32>
    decreases ps.len(),
{
    if ps.len() == 0 {
        acc
    } else {
        last_role_voff_controls(ps.last().controls@, role, last_role_voff_paras(ps.drop_last(), role, acc))
    }
}

/// The vertical offset of the master page's last box with role `role`, if it has one.
pub open spec fn last_role_voff(mp: MasterPage, role: FooterRole) -> Option<u32> {
    last_role_voff_paras(mp.paragraphs@, role, None)
}

/// The vertical offsets of the last page-number box and of the last title box.
pub fn scan_footer_voffs(mp: &MasterPage) -> (r: (Option<u32>, Option<u32>))
    ensures
        r.0 == last_role_voff(*mp, FooterRole::PageNumber),
        r.1 == last_role_voff(*mp, FooterRole::Title),
{
    let ghost ps = mp.paragraphs@;
    let mut pagenum: Option<u32> = None;
    let mut title: Option<u32> = None;
    let mut i: usize = 0;
    while i < mp.paragraphs.len()
        invariant
            i <= ps.len(),
            ps == mp.paragraphs@,
            pagenum == last_role_voff_paras(ps.take(i as int), FooterRole::PageNumber, None),
            title == last_role_voff_paras(ps.take(i as int), FooterRole::Title, None),
        decreases ps.len() - i,
    {
        let para = &mp.paragraphs[i];
        let ghost cs = para.controls@;
        let ghost pn0 = pagenum;
        let ghost t0 = title;
        let mut j: usize = 0;
        while j < para.controls.len()
            invariant
                j <= cs.len(),
                cs == para.controls@,
                pagenum == last_role_voff_controls(cs.take(j as int), FooterRole::PageNumber, pn0),
                title == last_role_voff_controls(cs.take(j as int), FooterRole::Title, t0),
            decreases cs.len() - j,
        {
            assert(cs.take(j + 1).drop_last() =~= cs.take(j as int));
            if let Control::Shape(s) = &para.controls[j] {
                let role = shape_footer_role(s);
                if role == FooterRole::PageNumber {
                    pagenum = Some(s.vertical_offset());
                } else if role == FooterRole::Title {
                    title = Some(s.vertical_offset());
                }
            }
            j = j + 1;
        }
        assert(cs.take(cs.len() as int) =~= cs);
        assert(ps.take(i + 1).drop_last() =~= ps.take(i as int));
        i = i + 1;
    }
    assert(ps.take(ps.len() as int) =~= ps);
    (pagenum, title)
}

// ---------------------------------------------------------------------------------------
// Alignment of one master page.

/// `b` is `a`, with a page-number box moved to vertical offset `t`.
pub open spec fn control_aligned(a: Control, b: Control, t: u32) -> bool {
    match a {
        Control::Shape(s) => if footer_role(*s) == FooterRole::PageNumber {
            b matches Control::Shape(s2) && *s2 == with_vertical_offset(*s, t)
        } else {
            b == a
        },
        _ => b == a,
    }
}

/// Whether `c` is a page-number box that does not sit at `t`.
pub open spec fn misaligned(c: Control, t: u32) -> bool {
    c matches Control::Shape(s) && footer_role(*s) == FooterRole::PageNumber && shape_common(
        *s,
    ).vertical_offset != t
}

pub open spec fn controls_misaligned_count(cs: Seq<Control>, t: u32) -> nat
    decreases cs.len(),
{
    if cs.len() == 0 {
        0
    } else {
        controls_misaligned_count(cs.drop_last(), t) + if misaligned(cs.last(), t) {
            1nat
        } else {
            0nat
        }
    }
}

pub open spec fn paras_misaligned_count(ps: Seq<Paragraph>, t: u32) -> nat
    decreases ps.len(),
{
    if ps.len() == 0 {
        0
    } else {
        paras_misaligned_count(ps.drop_last(), t) + controls_misaligned_count(ps.last().controls@, t)
    }
}

pub open spec fn para_aligned(a: Paragraph, b: Paragraph, t: u32) -> bool {
    &&& a.text == b.text
    &&& a.char_offsets == b.char_offsets
    &&& a.ctrl_data_records == b.ctrl_data_records
    &&& a.controls@.len() == b.controls@.len()
    &&& forall|j: int|
        0 <= j < a.controls@.len() ==> control_aligned(#[trigger] a.controls@[j], b.controls@[j], t)
}

/// `b` is master page `a` after alignment: if `a` has a title box, every page-number box
/// now sits at the vertical offset of its last title box; otherwise nothing changed.
pub open spec fn master_aligned(a: MasterPage, b: MasterPage) -> bool {
    match last_role_voff(a, FooterRole::Title) {
        None => b == a,
        Some(t) => {
            &&& a.apply_to == b.apply_to
            &&& a.is_extension == b.is_extension
            &&& a.overlap == b.overlap
            &&& a.ext_flags == b.ext_flags
            &&& a.text_width == b.text_width
            &&& a.text_height == b.text_height
            &&& a.text_ref == b.text_ref
            &&& a.num_ref == b.num_ref
            &&& a.paragraphs@.len() == b.paragraphs@.len()
            &&& forall|i: int|
                0 <= i < a.paragraphs@.len() ==> para_aligned(
                    #[trigger] a.paragraphs@[i],
                    b.paragraphs@[i],
                    t,
                )
        },
    }
}

/// How many page-number boxes the alignment of `mp` moves.
pub open spec fn master_align_count(mp: MasterPage) -> nat {
    match last_role_voff(mp, FooterRole::Title) {
        None => 0,
        Some(t) => paras_misaligned_count(mp.paragraphs@, t),
    }
}

proof fn lemma_controls_misaligned_step(s: Seq<Control>, i: int, t: u32)
    requires
        0 <= i < s.len(),
    ensures
        controls_misaligned_count(s.take(i + 1), t) == controls_misaligned_count(s.take(i), t) + if misaligned(s[i], t) {
            1nat
        } else {
            0nat
        },
        controls_misaligned_count(s.take(i + 1), t) <= controls_misaligned_count(s, t),
    decreases s.len(),
{
    assert(s.take(i + 1).drop_last() =~= s.take(i));
    if i + 1 < s.len() {
        assert(s.drop_last().take(i + 1) =~= s.take(i + 1));
        lemma_controls_misaligned_step(s.drop_last(), i, t);
    } else {
        assert(s.take(i + 1) =~= s);
    }
}

proof fn lemma_paras_misaligned_step(s: Seq<Paragraph>, i: int, t: u32)
    requires
        0 <= i < s.len(),
    ensures
        paras_misaligned_count(s.take(i + 1), t) == paras_misaligned_count(s.take(i), t)
            + controls_misaligned_count(s[i].controls@, t),
        paras_misaligned_count(s.take(i + 1), t) <= paras_misaligned_count(s, t),
    decreases s.len(),
{
    assert(s.take(i + 1).drop_last() =~= s.take(i));
    if i + 1 < s.len() {
        assert(s.drop_last().take(i + 1) =~= s.take(i + 1));
        lemma_paras_misaligned_step(s.drop_last(), i, t);
    } else {
        assert(s.take(i + 1) =~= s);
    }
}

fn align_paragraph(para: &mut Paragraph, title_voff: u32) -> (count: u32)
    requires
        controls_misaligned_count(old(para).controls@, title_voff) <= u32::MAX,
    ensures
        para_aligned(*old(para), *final(para), title_voff),
        count == controls_misaligned_count(old(para).controls@, title_voff),
{
    let ghost orig = para.controls@;
    let n = para.controls.len();
    let mut count: u32 = 0;
    let mut j: usize = 0;
    while j < n
        invariant
            n == para.controls@.len() == orig.len(),
            orig == old(para).controls@,
            para.text == old(para).text,
            para.char_offsets == old(para).char_offsets,
            para.ctrl_data_records == old(para).ctrl_data_records,
            j <= n,
            forall|k: int| 0 <= k < j ==> control_aligned(orig[k], #[trigger] para.controls@[k], title_voff),
            forall|k: int| j <= k < n ==> #[trigger] para.controls@[k] == orig[k],
            count == controls_misaligned_count(orig.take(j as int), title_voff),
            controls_misaligned_count(orig, title_voff) <= u32::MAX,
        decreases n - j,
    {
        proof {
            lemma_controls_misaligned_step(orig, j as int, title_voff);
        }
        if let Control::Shape(s) = &mut para.controls[j] {
            if shape_footer_role(s) == FooterRole::PageNumber {
                if s.vertical_offset() != title_voff {
                    s.set_vertical_offset(title_voff);
                    count = count + 1;
                }
            }
        }
        j = j + 1;
    }
    assert(orig.take(n as int) =~= orig);
    count
}

/// Moves every page-number box of the master page to the vertical offset of its title box.
/// Returns how many boxes moved.
pub fn align_master_footer(mp: &mut MasterPage) -> (count: u32)
    requires
        master_align_count(*old(mp)) <= u32::MAX,
    ensures
        master_aligned(*old(mp), *final(mp)),
        count == master_align_count(*old(mp)),
{
    let (_, title_voff) = scan_footer_voffs(mp);
    let title_voff = match title_voff {
        Some(v) => v,
        None => {
            return 0;
        },
    };
    let ghost orig = mp.paragraphs@;
    let n = mp.paragraphs.len();
    let mut count: u32 = 0;
    let mut i: usize = 0;
    while i < n
        invariant
            n == mp.paragraphs@.len() == orig.len(),
            orig == old(mp).paragraphs@,
            mp.apply_to == old(mp).apply_to,
            mp.is_extension == old(mp).is_extension,
            mp.overlap == old(mp).overlap,
            mp.ext_flags == old(mp).ext_flags,
            mp.text_width == old(mp).text_width,
            mp.text_height == old(mp).text_height,
            mp.text_ref == old(mp).text_ref,
            mp.num_ref == old(mp).num_ref,
            i <= n,
            forall|k: int| 0 <= k < i ==> para_aligned(orig[k], #[trigger] mp.paragraphs@[k], title_voff),
            forall|k: int| i <= k < n ==> #[trigger] mp.paragraphs@[k] == orig[k],
            count == paras_misaligned_count(orig.take(i as int), title_voff),
            paras_misaligned_count(orig, title_voff) <= u32::MAX,
        decreases n - i,
    {
        proof {
            lemma_paras_misaligned_step(orig, i as int, title_voff);
        }
        let c = align_paragraph(&mut mp.paragraphs[i], title_voff);
        count = count + c;
        i = i + 1;
    }
    assert(orig.take(n as int) =~= orig);
    count
}


// ---------------------------------------------------------------------------------------
// The map from a page-number box's vertical offset to its title box's, built over master
// pages in order (a later master page overrides an earlier one with the same offset).

pub open spec fn collect_step(mp: MasterPage, m: Map<u32, u32>) -> Map<u32, u32> {
    match (last_role_voff(mp, FooterRole::PageNumber), last_role_voff(mp, FooterRole::Title)) {
        (Some(p), Some(t)) => if p != t {
            m.insert(p, t)
        } else {
            m
        },
        _ => m,
    }
}

pub open spec fn map_after_masters(mps: Seq<MasterPage>, m: Map<u32, u32>) -> Map<u32, u32>
    decreases mps.len(),
{
    if mps.len() == 0 {
        m
    } else {
        collect_step(mps.last(), map_after_masters(mps.drop_last(), m))
    }
}

pub open spec fn map_after_controls(cs: Seq<Control>, m: Map<u32, u32>) -> Map<u32, u32>
    decreases cs.len(),
{
    if cs.len() == 0 {
        m
    } else {
        let prev = map_after_controls(cs.drop_last(), m);
        match cs.last() {
            Control::SectionDef(sd) => map_after_masters(sd.master_pages@, prev),
            _ => prev,
        }
    }
}

pub open spec fn map_after_paras(ps: Seq<Paragraph>, m: Map<u32, u32>) -> Map<u32, u32>
    decreases ps.len(),
{
    if ps.len() == 0 {
        m
    } else {
        map_after_controls(ps.last().controls@, map_after_paras(ps.drop_last(), m))
    }
}

/// The offset map of a section: from its section definition's master pages, or, when those
/// give nothing, from the master pages of the section-definition controls in its paragraphs.
pub open spec fn section_voff_map(s: Section) -> Map<u32, u32> {
    let m = map_after_masters(s.section_def.master_pages@, Map::empty());
    if m.is_empty() {
        map_after_paras(s.paragraphs@, m)
    } else {
        m
    }
}

/// Records in `map` the offset of the master page's last page-number box, mapped to the
/// offset of its last title box, when both exist and differ.
pub fn collect_footer_voff_map(mp: &MasterPage, map: &mut HashMap<u32, u32>)
    ensures
        final(map)@ == collect_step(*mp, old(map)@),
{
    let (pagenum, title) = scan_footer_voffs(mp);
    if let (Some(p), Some(t)) = (pagenum, title) {
        if p != t {
            map.insert(p, t);
        }
    }
}

fn collect_masters(mps: &Vec<MasterPage>, map: &mut HashMap<u32, u32>)
    ensures
        final(map)@ == map_after_masters(mps@, old(map)@),
{
    let mut i: usize = 0;
    while i < mps.len()
        invariant
            i <= mps@.len(),
            map@ == map_after_masters(mps@.take(i as int), old(map)@),
        decreases mps@.len() - i,
    {
        assert(mps@.take(i + 1).drop_last() =~= mps@.take(i as int));
        collect_footer_voff_map(&mps[i], map);
        i = i + 1;
    }
    assert(mps@.take(mps@.len() as int) =~= mps@);
}

fn collect_controls(cs: &Vec<Control>, map: &mut HashMap<u32, u32>)
    ensures
        final(map)@ == map_after_controls(cs@, old(map)@),
{
    let mut j: usize = 0;
    while j < cs.len()
        invariant
            j <= cs@.len(),
            map@ == map_after_controls(cs@.take(j as int), old(map)@),
        decreases cs@.len() - j,
    {
        assert(cs@.take(j + 1).drop_last() =~= cs@.take(j as int));
        if let Control::SectionDef(sd) = &cs[j] {
            collect_masters(&sd.master_pages, map);
        }
        j = j + 1;
    }
    assert(cs@.take(cs@.len() as int) =~= cs@);
}

fn collect_paras(ps: &Vec<Paragraph>, map: &mut HashMap<u32, u32>)
    ensures
        final(map)@ == map_after_paras(ps@, old(map)@),
{
    let mut i: usize = 0;
    while i < ps.len()
        invariant
            i <= ps@.len(),
            map@ == map_after_paras(ps@.take(i as int), old(map)@),
        decreases ps@.len() - i,
    {
        assert(ps@.take(i + 1).drop_last() =~= ps@.take(i as int));
        collect_controls(&ps[i].controls, map);
        i = i + 1;
    }
    assert(ps@.take(ps@.len() as int) =~= ps@);
}

// ---------------------------------------------------------------------------------------
// Patching the vertical offset (bytes 8..12, little endian) of control-header records.

/// The little-endian `u32` at `d[i..i + 4]`.
pub open spec fn le_u32(d: Seq<u8>, i: int) -> int {
    d[i] as int + 256 * (d[i + 1] as int) + 65536 * (d[i + 2] as int) + 16777216 * (d[i + 3] as int)
}

/// The little-endian bytes of `v`.
pub open spec fn le_bytes(v: u32) -> Seq<u8> {
    seq![(v % 256) as u8, ((v / 256) % 256) as u8, ((v / 65536) % 256) as u8, (v / 16777216) as u8]
}

/// The vertical offset a control-header record holds.
pub open spec fn header_voff(r: RawRecord) -> u32 {
    le_u32(r.data@, 8) as u32
}

/// Whether the patch rewrites record `r`: a control header long enough to hold a vertical
/// offset, and one that the map knows.
pub open spec fn patchable(r: RawRecord, m: Map<u32, u32>) -> bool {
    &&& r.tag_id == HWPTAG_CTRL_HEADER
    &&& r.data@.len() >= 12
    &&& m.contains_key(header_voff(r))
}

pub open spec fn record_patched(a: RawRecord, b: RawRecord, m: Map<u32, u32>) -> bool {
    if patchable(a, m) {
        &&& b.tag_id == a.tag_id
        &&& b.level == a.level
        &&& b.data@ == a.data@.take(8) + le_bytes(m[header_voff(a)]) + a.data@.skip(12)
    } else {
        b == a
    }
}

pub open spec fn records_patched(a: Seq<RawRecord>, b: Seq<RawRecord>, m: Map<u32, u32>) -> bool {
    &&& a.len() == b.len()
    &&& forall|i: int| 0 <= i < a.len() ==> record_patched(#[trigger] a[i], b[i], m)
}

pub open spec fn patch_count(rs: Seq<RawRecord>, m: Map<u32, u32>) -> nat
    decreases rs.len(),
{
    if rs.len() == 0 {
        0
    } else {
        patch_count(rs.drop_last(), m) + if patchable(rs.last(), m) {
            1nat
        } else {
            0nat
        }
    }
}

proof fn lemma_patch_count_step(s: Seq<RawRecord>, i: int, m: Map<u32, u32>)
    requires
        0 <= i < s.len(),
    ensures
        patch_count(s.take(i + 1), m) == patch_count(s.take(i), m) + if patchable(s[i], m) {
            1nat
        } else {
            0nat
        },
        patch_count(s.take(i + 1), m) <= patch_count(s, m),
    decreases s.len(),
{
    assert(s.take(i + 1).drop_last() =~= s.take(i));
    if i + 1 < s.len() {
        assert(s.drop_last().take(i + 1) =~= s.take(i + 1));
        lemma_patch_count_step(s.drop_last(), i, m);
    } else {
        assert(s.take(i + 1) =~= s);
    }
}

/// Rewrites the vertical offset of every control-header record whose offset `map` knows.
/// Returns how many records changed.
pub fn patch_ctrl_header_voff(records: &mut Vec<RawRecord>, map: &HashMap<u32, u32>) -> (count:
    u32)
    requires
        patch_count(old(records)@, map@) <= u32::MAX,
    ensures
        records_patched(old(records)@, final(records)@, map@),
        count == patch_count(old(records)@, map@),
{
    let ghost orig = records@;
    let n = records.len();
    let mut count: u32 = 0;
    let mut i: usize = 0;
    while i < n
        invariant
            n == records@.len() == orig.len(),
            orig == old(records)@,
            i <= n,
            forall|k: int| 0 <= k < i ==> record_patched(orig[k], #[trigger] records@[k], map@),
            forall|k: int| i <= k < n ==> #[trigger] records@[k] == orig[k],
            count == patch_count(orig.take(i as int), map@),
            patch_count(orig, map@) <= u32::MAX,
        decreases n - i,
    {
        proof {
            lemma_patch_count_step(orig, i as int, map@);
        }
        let rec = &mut records[i];
        if rec.tag_id == HWPTAG_CTRL_HEADER && rec.data.len() >= 12 {
            let voff: u32 = rec.data[8] as u32 + (rec.data[9] as u32) * 256 + (rec.data[10] as u32)
                * 65536 + (rec.data[11] as u32) * 16777216;
            assert(voff == header_voff(orig[i as int]));
            match map.get(&voff) {
                Some(nv) => {
                    let nv: u32 = *nv;
                    let ghost d0 = rec.data@;
                    rec.data.set(8, (nv % 256) as u8);
                    rec.data.set(9, ((nv / 256) % 256) as u8);
                    rec.data.set(10, ((nv / 65536) % 256) as u8);
                    rec.data.set(11, (nv / 16777216) as u8);
                    assert(rec.data@ =~= d0.take(8) + le_bytes(nv) + d0.skip(12));
                    count = count + 1;
                },
                None => {},
            }
        }
        i = i + 1;
    }
    assert(orig.take(n as int) =~= orig);
    count
}

/// Reading back the vertical offset of a patched control header gives what the map sent
/// the old offset to; the record keeps its length.
pub proof fn law_patch_read_after_write(a: RawRecord, b: RawRecord, m: Map<u32, u32>)
    requires
        record_patched(a, b, m),
        patchable(a, m),
    ensures
        header_voff(b) == m[header_voff(a)],
        b.data@.len() == a.data@.len(),
        b.data@.take(8) == a.data@.take(8),
        b.data@.skip(12) == a.data@.skip(12),
{
    let v = m[header_voff(a)];
    let d = b.data@;
    assert(d[8] == (v % 256) as u8);
    assert(d[9] == ((v / 256) % 256) as u8);
    assert(d[10] == ((v / 65536) % 256) as u8);
    assert(d[11] == (v / 16777216) as u8);
    assert(v % 256 + 256 * ((v / 256) % 256) + 65536 * ((v / 65536) % 256) + 16777216 * (v
        / 16777216) == v) by (nonlinear_arith);
    assert(d.take(8) =~= a.data@.take(8));
    assert(d.skip(12) =~= a.data@.skip(12));
}


// ---------------------------------------------------------------------------------------
// A whole section: patch the raw records of every section definition and align every
// master page.

pub open spec fn masters_aligned(a: Seq<MasterPage>, b: Seq<MasterPage>) -> bool {
    &&& a.len() == b.len()
    &&& forall|i: int| 0 <= i < a.len() ==> master_aligned(#[trigger] a[i], b[i])
}

pub open spec fn sd_aligned(a: SectionDef, b: SectionDef, m: Map<u32, u32>) -> bool {
    &&& records_patched(a.extra_child_records@, b.extra_child_records@, m)
    &&& masters_aligned(a.master_pages@, b.master_pages@)
}

pub open spec fn control_sd_aligned(a: Control, b: Control, m: Map<u32, u32>) -> bool {
    match a {
        Control::SectionDef(sd) => b matches Control::SectionDef(sd2) && sd_aligned(*sd, *sd2, m),
        _ => b == a,
    }
}

pub open spec fn para_sd_aligned(a: Paragraph, b: Paragraph, m: Map<u32, u32>) -> bool {
    &&& a.text == b.text
    &&& a.char_offsets == b.char_offsets
    &&& a.ctrl_data_records == b.ctrl_data_records
    &&& a.controls@.len() == b.controls@.len()
    &&& forall|j: int|
        0 <= j < a.controls@.len() ==> control_sd_aligned(#[trigger] a.controls@[j], b.controls@[j], m)
}

pub open spec fn paras_sd_aligned(a: Seq<Paragraph>, b: Seq<Paragraph>, m: Map<u32, u32>) -> bool {
    &&& a.len() == b.len()
    &&& forall|i: int| 0 <= i < a.len() ==> para_sd_aligned(#[trigger] a[i], b[i], m)
}

pub open spec fn control_patch_count(c: Control, m: Map<u32, u32>) -> nat {
    match c {
        Control::SectionDef(sd) => patch_count(sd.extra_child_records@, m),
        _ => 0,
    }
}

pub open spec fn controls_patch_count(cs: Seq<Control>, m: Map<u32, u32>) -> nat
    decreases cs.len(),
{
    if cs.len() == 0 {
        0
    } else {
        controls_patch_count(cs.drop_last(), m) + control_patch_count(cs.last(), m)
    }
}

pub open spec fn paras_patch_count(ps: Seq<Paragraph>, m: Map<u32, u32>) -> nat
    decreases ps.len(),
{
    if ps.len() == 0 {
        0
    } else {
        paras_patch_count(ps.drop_last(), m) + controls_patch_count(ps.last().controls@, m)
    }
}

/// Every master page's count of moved boxes fits in a `u32`.
pub open spec fn masters_fit(mps: Seq<MasterPage>) -> bool {
    forall|i: int| 0 <= i < mps.len() ==> master_align_count(#[trigger] mps[i]) <= u32::MAX
}

pub open spec fn controls_fit(cs: Seq<Control>) -> bool {
    forall|j: int|
        0 <= j < cs.len() ==> (#[trigger] cs[j] matches Control::SectionDef(sd) ==> masters_fit(
            sd.master_pages@,
        ))
}

pub open spec fn paras_fit(ps: Seq<Paragraph>) -> bool {
    forall|i: int| 0 <= i < ps.len() ==> controls_fit(#[trigger] ps[i].controls@)
}

/// How many records the alignment of section `s` patches.
pub open spec fn section_patch_count(s: Section) -> nat {
    paras_patch_count(s.paragraphs@, section_voff_map(s)) + patch_count(
        s.section_def.extra_child_records@,
        section_voff_map(s),
    )
}

/// The counts that the alignment of section `s` keeps fit in a `u32`.
pub open spec fn section_counts_fit(s: Section) -> bool {
    &&& masters_fit(s.section_def.master_pages@)
    &&& paras_fit(s.paragraphs@)
    &&& section_patch_count(s) <= u32::MAX
}

proof fn lemma_controls_patch_step(s: Seq<Control>, i: int, m: Map<u32, u32>)
    requires
        0 <= i < s.len(),
    ensures
        controls_patch_count(s.take(i + 1), m) == controls_patch_count(s.take(i), m)
            + control_patch_count(s[i], m),
        controls_patch_count(s.take(i + 1), m) <= controls_patch_count(s, m),
    decreases s.len(),
{
    assert(s.take(i + 1).drop_last() =~= s.take(i));
    if i + 1 < s.len() {
        assert(s.drop_last().take(i + 1) =~= s.take(i + 1));
        lemma_controls_patch_step(s.drop_last(), i, m);
    } else {
        assert(s.take(i + 1) =~= s);
    }
}

proof fn lemma_paras_patch_step(s: Seq<Paragraph>, i: int, m: Map<u32, u32>)
    requires
        0 <= i < s.len(),
    ensures
        paras_patch_count(s.take(i + 1), m) == paras_patch_count(s.take(i), m)
            + controls_patch_count(s[i].controls@, m),
        paras_patch_count(s.take(i + 1), m) <= paras_patch_count(s, m),
    decreases s.len(),
{
    assert(s.take(i + 1).drop_last() =~= s.take(i));
    if i + 1 < s.len() {
        assert(s.drop_last().take(i + 1) =~= s.take(i + 1));
        lemma_paras_patch_step(s.drop_last(), i, m);
    } else {
        assert(s.take(i + 1) =~= s);
    }
}

fn align_masters(mps: &mut Vec<MasterPage>)
    requires
        masters_fit(old(mps)@),
    ensures
        masters_aligned(old(mps)@, final(mps)@),
{
    let ghost orig = mps@;
    let n = mps.len();
    let mut i: usize = 0;
    while i < n
        invariant
            n == mps@.len() == orig.len(),
            orig == old(mps)@,
            masters_fit(orig),
            i <= n,
            forall|k: int| 0 <= k < i ==> master_aligned(orig[k], #[trigger] mps@[k]),
            forall|k: int| i <= k < n ==> #[trigger] mps@[k] == orig[k],
        decreases n - i,
    {
        assert(master_align_count(orig[i as int]) <= u32::MAX);
        align_master_footer(&mut mps[i]);
        i = i + 1;
    }
}

fn align_sd_control(ctrl: &mut Control, map: &HashMap<u32, u32>) -> (count: u32)
    requires
        control_patch_count(*old(ctrl), map@) <= u32::MAX,
        *old(ctrl) matches Control::SectionDef(sd) ==> masters_fit(sd.master_pages@),
    ensures
        control_sd_aligned(*old(ctrl), *final(ctrl), map@),
        count == control_patch_count(*old(ctrl), map@),
{
    if let Control::SectionDef(sd) = ctrl {
        let c = patch_ctrl_header_voff(&mut sd.extra_child_records, map);
        align_masters(&mut sd.master_pages);
        c
    } else {
        0
    }
}

fn align_sd_paragraph(para: &mut Paragraph, map: &HashMap<u32, u32>) -> (count: u32)
    requires
        controls_patch_count(old(para).controls@, map@) <= u32::MAX,
        controls_fit(old(para).controls@),
    ensures
        para_sd_aligned(*old(para), *final(para), map@),
        count == controls_patch_count(old(para).controls@, map@),
{
    let ghost orig = para.controls@;
    let n = para.controls.len();
    let mut count: u32 = 0;
    let mut j: usize = 0;
    while j < n
        invariant
            n == para.controls@.len() == orig.len(),
            orig == old(para).controls@,
            para.text == old(para).text,
            para.char_offsets == old(para).char_offsets,
            para.ctrl_data_records == old(para).ctrl_data_records,
            controls_fit(orig),
            j <= n,
            forall|k: int| 0 <= k < j ==> control_sd_aligned(orig[k], #[trigger] para.controls@[k], map@),
            forall|k: int| j <= k < n ==> #[trigger] para.controls@[k] == orig[k],
            count == controls_patch_count(orig.take(j as int), map@),
            controls_patch_count(orig, map@) <= u32::MAX,
        decreases n - j,
    {
        proof {
            lemma_controls_patch_step(orig, j as int, map@);
        }
        let c = align_sd_control(&mut para.controls[j], map);
        count = count + c;
        j = j + 1;
    }
    assert(orig.take(n as int) =~= orig);
    count
}

fn align_sd_paragraphs(paras: &mut Vec<Paragraph>, map: &HashMap<u32, u32>) -> (count: u32)
    requires
        paras_patch_count(old(paras)@, map@) <= u32::MAX,
        paras_fit(old(paras)@),
    ensures
        paras_sd_aligned(old(paras)@, final(paras)@, map@),
        count == paras_patch_count(old(paras)@, map@),
{
    let ghost orig = paras@;
    let n = paras.len();
    let mut count: u32 = 0;
    let mut i: usize = 0;
    while i < n
        invariant
            n == paras@.len() == orig.len(),
            orig == old(paras)@,
            paras_fit(orig),
            i <= n,
            forall|k: int| 0 <= k < i ==> para_sd_aligned(orig[k], #[trigger] paras@[k], map@),
            forall|k: int| i <= k < n ==> #[trigger] paras@[k] == orig[k],
            count == paras_patch_count(orig.take(i as int), map@),
            paras_patch_count(orig, map@) <= u32::MAX,
        decreases n - i,
    {
        proof {
            lemma_paras_patch_step(orig, i as int, map@);
        }
        let c = align_sd_paragraph(&mut paras[i], map);
        count = count + c;
        i = i + 1;
    }
    assert(orig.take(n as int) =~= orig);
    count
}

/// What aligning section `a` into `b` replies `s`: with an empty offset map nothing changes
/// and no record is patched; otherwise the raw records of every section definition are
/// patched through the map, every master page is aligned, the stream as read is dropped when
/// a record changed, and the reply counts the patched records.
pub open spec fn section_aligned(a: Section, b: Section, s: Seq<char>) -> bool {
    let m = section_voff_map(a);
    let n = section_patch_count(a);
    if m.is_empty() {
        b == a && s == ok_count_json("aligned"@, 0)
    } else {
        &&& paras_sd_aligned(a.paragraphs@, b.paragraphs@, m)
        &&& sd_aligned(a.section_def, b.section_def, m)
        &&& b.raw_stream == if n > 0 {
            None
        } else {
            a.raw_stream
        }
        &&& s == ok_count_json("aligned"@, n)
    }
}

/// What aligning the footers of section `sec` does, from sections `s0` to `s1`.
pub open spec fn align_outcome(s0: Seq<Section>, sec: int, r: Result<String, HwpError>, s1: Seq<Section>) -> bool {
    match r {
        Err(e) => {
            &&& sec >= s0.len()
            &&& is_render_error(e, section_out_of_range())
            &&& s1 == s0
        },
        Ok(s) => {
            &&& 0 <= sec < s0.len()
            &&& other_sections_unchanged(s0, s1, sec)
            &&& section_aligned(s0[sec], s1[sec], s@)
        },
    }
}

impl DocumentCore {
    /// Aligns the vertical offset of the page-number box of each master-page footer of
    /// section `sec` with its title box, in the model and in the raw control-header records
    /// that the serializer writes back. Replies `{"ok":true,"aligned":N}`, `N` the number of
    /// records patched.
    pub fn align_master_footer_voffset(&mut self, sec: usize) -> (r: Result<String, HwpError>)
        requires
            sec < old(self).document.sections@.len() ==> section_counts_fit(
                old(self).document.sections@[sec as int],
            ),
        ensures
            align_outcome(old(self).document.sections@, sec as int, r, final(self).document.sections@),
            r is Err ==> *final(self) == *old(self),
    {
        if sec >= self.document.sections.len() {
            return Err(HwpError::RenderError(string_of("구역 범위 초과")));
        }
        let section = &mut self.document.sections[sec];
        // 1) The offset map, from the model as it is before any change.
        let mut voff_map: HashMap<u32, u32> = HashMap::new();
        collect_masters(&section.section_def.master_pages, &mut voff_map);
        if voff_map.is_empty() {
            collect_paras(&section.paragraphs, &mut voff_map);
        }
        if voff_map.is_empty() {
            return Ok(ok_count_reply("aligned", 0));
        }
        // 2) The raw records the serializer writes, and 3) the model's master pages.
        let patched_in_controls = align_sd_paragraphs(&mut section.paragraphs, &voff_map);
        let patched_in_def = patch_ctrl_header_voff(
            &mut section.section_def.extra_child_records,
            &voff_map,
        );
        align_masters(&mut section.section_def.master_pages);
        let patched = patched_in_controls + patched_in_def;
        if patched > 0 {
            section.raw_stream = None;
        }
        Ok(ok_count_reply("aligned", patched as u64))
    }
}


// ---------------------------------------------------------------------------------------
// Laws of the alignment.

/// Moving a box does not change its role: the role depends on what the box holds.
proof fn lemma_role_ignores_offset(s: ShapeObject, t: u32)
    ensures
        footer_role(with_vertical_offset(s, t)) == footer_role(s),
        shape_common(with_vertical_offset(s, t)).vertical_offset == t,
        with_vertical_offset(with_vertical_offset(s, t), t) == with_vertical_offset(s, t),
{
}

pub open spec fn controls_aligned(a: Seq<Control>, b: Seq<Control>, t: u32) -> bool {
    &&& a.len() == b.len()
    &&& forall|j: int| 0 <= j < a.len() ==> control_aligned(#[trigger] a[j], b[j], t)
}

proof fn lemma_controls_aligned_drop_last(a: Seq<Control>, b: Seq<Control>, t: u32)
    requires
        controls_aligned(a, b, t),
        a.len() > 0,
    ensures
        controls_aligned(a.drop_last(), b.drop_last(), t),
        control_aligned(a.last(), b.last(), t),
{
    assert forall|j: int| 0 <= j < a.drop_last().len() implies control_aligned(
        #[trigger] a.drop_last()[j],
        b.drop_last()[j],
        t,
    ) by {
        assert(a.drop_last()[j] == a[j]);
        assert(b.drop_last()[j] == b[j]);
    }
}

/// Alignment leaves the title boxes, and so the scan for the last one, as they were.
proof fn lemma_controls_title_kept(a: Seq<Control>, b: Seq<Control>, t: u32, acc: Option<u32>)
    requires
        controls_aligned(a, b, t),
    ensures
        last_role_voff_controls(b, FooterRole::Title, acc) == last_role_voff_controls(
            a,
            FooterRole::Title,
            acc,
        ),
        controls_misaligned_count(b, t) == 0,
        controls_aligned(b, b, t),
    decreases a.len(),
{
    if a.len() > 0 {
        lemma_controls_aligned_drop_last(a, b, t);
        lemma_controls_title_kept(a.drop_last(), b.drop_last(), t, acc);
        if let Control::Shape(s) = a.last() {
            lemma_role_ignores_offset(*s, t);
        }
    }
    assert forall|j: int| 0 <= j < b.len() implies control_aligned(#[trigger] b[j], b[j], t) by {
        assert(control_aligned(a[j], b[j], t));
        if let Control::Shape(s) = a[j] {
            lemma_role_ignores_offset(*s, t);
        }
    }
}

proof fn lemma_paras_title_kept(a: Seq<Paragraph>, b: Seq<Paragraph>, t: u32, acc: Option<u32>)
    requires
        a.len() == b.len(),
        forall|i: int| 0 <= i < a.len() ==> para_aligned(#[trigger] a[i], b[i], t),
    ensures
        last_role_voff_paras(b, FooterRole::Title, acc) == last_role_voff_paras(
            a,
            FooterRole::Title,
            acc,
        ),
        paras_misaligned_count(b, t) == 0,
        forall|i: int| 0 <= i < b.len() ==> para_aligned(#[trigger] b[i], b[i], t),
    decreases a.len(),
{
    if a.len() > 0 {
        assert forall|i: int| 0 <= i < a.drop_last().len() implies para_aligned(
            #[trigger] a.drop_last()[i],
            b.drop_last()[i],
            t,
        ) by {
            assert(a.drop_last()[i] == a[i]);
            assert(b.drop_last()[i] == b[i]);
        }
        lemma_paras_title_kept(a.drop_last(), b.drop_last(), t, acc);
        let prev = last_role_voff_paras(a.drop_last(), FooterRole::Title, acc);
        assert(para_aligned(a.last(), b.last(), t));
        assert(controls_aligned(a.last().controls@, b.last().controls@, t));
        lemma_controls_title_kept(a.last().controls@, b.last().controls@, t, prev);
    }
    assert forall|i: int| 0 <= i < b.len() implies para_aligned(#[trigger] b[i], b[i], t) by {
        assert(para_aligned(a[i], b[i], t));
        assert(controls_aligned(a[i].controls@, b[i].controls@, t));
        lemma_controls_title_kept(a[i].controls@, b[i].controls@, t, None);
    }
}

/// After alignment, every page-number box of a master page that has a title box sits at the
/// vertical offset of its (last) title box.
pub proof fn law_page_number_box_meets_title(a: MasterPage, b: MasterPage, t: u32, i: int, j: int)
    requires
        master_aligned(a, b),
        last_role_voff(a, FooterRole::Title) == Some(t),
        0 <= i < b.paragraphs@.len(),
        0 <= j < b.paragraphs@[i].controls@.len(),
        b.paragraphs@[i].controls@[j] matches Control::Shape(s) && footer_role(*s)
            == FooterRole::PageNumber,
    ensures
        shape_common(*b.paragraphs@[i].controls@[j]->Shape_0).vertical_offset == t,
{
    let ac = a.paragraphs@[i].controls@[j];
    assert(para_aligned(a.paragraphs@[i], b.paragraphs@[i], t));
    assert(control_aligned(ac, b.paragraphs@[i].controls@[j], t));
    if let Control::Shape(s) = ac {
        lemma_role_ignores_offset(*s, t);
    }
}

/// Aligning a master page a second time moves nothing: the title box is where it was, every
/// page-number box already sits at its offset, and the page stays as it is.
pub proof fn law_align_idempotent(a: MasterPage, b: MasterPage)
    requires
        master_aligned(a, b),
    ensures
        last_role_voff(b, FooterRole::Title) == last_role_voff(a, FooterRole::Title),
        master_align_count(b) == 0,
        master_aligned(b, b),
{
    if let Some(t) = last_role_voff(a, FooterRole::Title) {
        lemma_paras_title_kept(a.paragraphs@, b.paragraphs@, t, None);
    }
}

// ---------------------------------------------------------------------------------------
// A second alignment of a section finds nothing to do.

/// In aligned controls every page-number box sits at `t`, so the scan for the last one
/// finds `t` or nothing.
proof fn lemma_page_number_at(b: Seq<Control>, t: u32, acc: Option<u32>)
    requires
        controls_aligned(b, b, t),
        acc is None || acc == Some(t),
    ensures
        ({
            let r = last_role_voff_controls(b, FooterRole::PageNumber, acc);
            r is None || r == Some(t)
        }),
    decreases b.len(),
{
    if b.len() > 0 {
        lemma_controls_aligned_drop_last(b, b, t);
        lemma_page_number_at(b.drop_last(), t, acc);
        if let Control::Shape(sh) = b.last() {
            lemma_role_ignores_offset(*sh, t);
        }
    }
}

proof fn lemma_paras_page_number_at(b: Seq<Paragraph>, t: u32, acc: Option<u32>)
    requires
        forall|i: int| 0 <= i < b.len() ==> para_aligned(#[trigger] b[i], b[i], t),
        acc is None || acc == Some(t),
    ensures
        ({
            let r = last_role_voff_paras(b, FooterRole::PageNumber, acc);
            r is None || r == Some(t)
        }),
    decreases b.len(),
{
    if b.len() > 0 {
        assert forall|i: int| 0 <= i < b.drop_last().len() implies para_aligned(
            #[trigger] b.drop_last()[i],
            b.drop_last()[i],
            t,
        ) by {
            assert(b.drop_last()[i] == b[i]);
        }
        lemma_paras_page_number_at(b.drop_last(), t, acc);
        assert(para_aligned(b.last(), b.last(), t));
        lemma_page_number_at(
            b.last().controls@,
            t,
            last_role_voff_paras(b.drop_last(), FooterRole::PageNumber, acc),
        );
    }
}

/// An aligned master page adds nothing to the offset map, and moves nothing again.
proof fn lemma_master_collects_nothing(a: MasterPage, b: MasterPage, m: Map<u32, u32>)
    requires
        master_aligned(a, b),
    ensures
        collect_step(b, m) == m,
        master_align_count(b) == 0,
{
    law_align_idempotent(a, b);
    if let Some(t) = last_role_voff(a, FooterRole::Title) {
        lemma_paras_title_kept(a.paragraphs@, b.paragraphs@, t, None);
        lemma_paras_page_number_at(b.paragraphs@, t, None);
    }
}

proof fn lemma_masters_collect_nothing(a: Seq<MasterPage>, b: Seq<MasterPage>, m: Map<u32, u32>)
    requires
        masters_aligned(a, b),
    ensures
        map_after_masters(b, m) == m,
        masters_fit(b),
    decreases a.len(),
{
    if a.len() > 0 {
        assert(masters_aligned(a.drop_last(), b.drop_last())) by {
            assert forall|i: int| 0 <= i < a.drop_last().len() implies master_aligned(
                #[trigger] a.drop_last()[i],
                b.drop_last()[i],
            ) by {
                assert(a.drop_last()[i] == a[i]);
                assert(b.drop_last()[i] == b[i]);
            }
        }
        lemma_masters_collect_nothing(a.drop_last(), b.drop_last(), m);
        lemma_master_collects_nothing(a.last(), b.last(), m);
    }
    assert forall|i: int| 0 <= i < b.len() implies master_align_count(#[trigger] b[i]) <= u32::MAX by {
        lemma_master_collects_nothing(a[i], b[i], m);
    }
}

proof fn lemma_controls_collect_nothing(
    a: Seq<Control>,
    b: Seq<Control>,
    mm: Map<u32, u32>,
    m: Map<u32, u32>,
)
    requires
        a.len() == b.len(),
        forall|j: int| 0 <= j < a.len() ==> control_sd_aligned(#[trigger] a[j], b[j], mm),
    ensures
        map_after_controls(b, m) == m,
        controls_fit(b),
        controls_patch_count(b, Map::empty()) == 0,
    decreases a.len(),
{
    if a.len() > 0 {
        assert forall|j: int| 0 <= j < a.drop_last().len() implies control_sd_aligned(
            #[trigger] a.drop_last()[j],
            b.drop_last()[j],
            mm,
        ) by {
            assert(a.drop_last()[j] == a[j]);
            assert(b.drop_last()[j] == b[j]);
        }
        lemma_controls_collect_nothing(a.drop_last(), b.drop_last(), mm, m);
        assert(control_sd_aligned(a.last(), b.last(), mm));
        if let Control::SectionDef(sd2) = b.last() {
            let sd = a.last()->SectionDef_0;
            lemma_masters_collect_nothing(sd.master_pages@, sd2.master_pages@, map_after_controls(
                b.drop_last(),
                m,
            ));
            lemma_patch_count_empty(sd2.extra_child_records@);
        }
    }
    assert forall|j: int| 0 <= j < b.len() implies (#[trigger] b[j] matches Control::SectionDef(
        sd,
    ) ==> masters_fit(sd.master_pages@)) by {
        assert(control_sd_aligned(a[j], b[j], mm));
        if let Control::SectionDef(sd2) = b[j] {
            let sd = a[j]->SectionDef_0;
            lemma_masters_collect_nothing(sd.master_pages@, sd2.master_pages@, m);
        }
    }
}

proof fn lemma_paras_collect_nothing(
    a: Seq<Paragraph>,
    b: Seq<Paragraph>,
    mm: Map<u32, u32>,
    m: Map<u32, u32>,
)
    requires
        paras_sd_aligned(a, b, mm),
    ensures
        map_after_paras(b, m) == m,
        paras_fit(b),
        paras_patch_count(b, Map::empty()) == 0,
    decreases a.len(),
{
    if a.len() > 0 {
        assert(paras_sd_aligned(a.drop_last(), b.drop_last(), mm)) by {
            assert forall|i: int| 0 <= i < a.drop_last().len() implies para_sd_aligned(
                #[trigger] a.drop_last()[i],
                b.drop_last()[i],
                mm,
            ) by {
                assert(a.drop_last()[i] == a[i]);
                assert(b.drop_last()[i] == b[i]);
            }
        }
        lemma_paras_collect_nothing(a.drop_last(), b.drop_last(), mm, m);
        assert(para_sd_aligned(a.last(), b.last(), mm));
        lemma_controls_collect_nothing(
            a.last().controls@,
            b.last().controls@,
            mm,
            map_after_paras(b.drop_last(), m),
        );
    }
    assert forall|i: int| 0 <= i < b.len() implies controls_fit(#[trigger] b[i].controls@) by {
        assert(para_sd_aligned(a[i], b[i], mm));
        lemma_controls_collect_nothing(a[i].controls@, b[i].controls@, mm, m);
    }
}

proof fn lemma_patch_count_empty(rs: Seq<RawRecord>)
    ensures
        patch_count(rs, Map::empty()) == 0,
    decreases rs.len(),
{
    if rs.len() > 0 {
        lemma_patch_count_empty(rs.drop_last());
    }
}

/// After a section's footers are aligned, its offset map is empty: a second alignment of the
/// section patches nothing, changes nothing and replies an aligned count of 0.
pub proof fn law_align_section_idempotent(a: Section, b: Section, s: Seq<char>)
    requires
        section_counts_fit(a),
        section_aligned(a, b, s),
    ensures
        section_voff_map(b).is_empty(),
        section_counts_fit(b),
        forall|c: Section, s2: Seq<char>|
            #[trigger] section_aligned(b, c, s2) ==> c == b && s2 == ok_count_json("aligned"@, 0),
{
    let m = section_voff_map(a);
    if !m.is_empty() {
        let e = Map::<u32, u32>::empty();
        lemma_masters_collect_nothing(a.section_def.master_pages@, b.section_def.master_pages@, e);
        lemma_paras_collect_nothing(a.paragraphs@, b.paragraphs@, m, e);
        assert(map_after_masters(b.section_def.master_pages@, e) =~= e);
        assert(section_voff_map(b) =~= e);
        lemma_patch_count_empty(b.section_def.extra_child_records@);
    }
}

/// Aligning the footers of a section twice: the second call succeeds, replies
/// `{"ok":true,"aligned":0}` and leaves the document as the first call left it.
pub proof fn law_align_twice(
    s0: Seq<Section>,
    s1: Seq<Section>,
    s2: Seq<Section>,
    sec: int,
    r1: Result<String, HwpError>,
    r2: Result<String, HwpError>,
)
    requires
        0 <= sec < s0.len(),
        section_counts_fit(s0[sec]),
        align_outcome(s0, sec, r1, s1),
        align_outcome(s1, sec, r2, s2),
    ensures
        section_counts_fit(s1[sec]),
        r2 is Ok,
        r2->Ok_0@ == ok_count_json("aligned"@, 0),
        s2 == s1,
{
    law_align_section_idempotent(s0[sec], s1[sec], r1->Ok_0@);
    assert(section_aligned(s1[sec], s2[sec], r2->Ok_0@));
    assert(s2 =~= s1);
}

/// Alignment moves page-number boxes only: every other control of a master page (the title
/// box, a picture, a line, a blank or decorative box, any control that is not a shape) is
/// left exactly as it was, its vertical offset included.
pub proof fn law_only_page_number_boxes_move(a: MasterPage, b: MasterPage, i: int, j: int)
    requires
        master_aligned(a, b),
        0 <= i < a.paragraphs@.len(),
        0 <= j < a.paragraphs@[i].controls@.len(),
        !(a.paragraphs@[i].controls@[j] matches Control::Shape(s) && footer_role(*s)
            == FooterRole::PageNumber),
    ensures
        b.paragraphs@.len() == a.paragraphs@.len(),
        b.paragraphs@[i].controls@.len() == a.paragraphs@[i].controls@.len(),
        b.paragraphs@[i].controls@[j] == a.paragraphs@[i].controls@[j],
{
    if let Some(t) = last_role_voff(a, FooterRole::Title) {
        assert(para_aligned(a.paragraphs@[i], b.paragraphs@[i], t));
        assert(control_aligned(a.paragraphs@[i].controls@[j], b.paragraphs@[i].controls@[j], t));
    }
}

proof fn lemma_no_box_nothing_misaligned(cs: Seq<Control>, t: u32)
    requires
        forall|j: int|
            0 <= j < cs.len() ==> !(#[trigger] cs[j] matches Control::Shape(s) && footer_role(*s)
                == FooterRole::PageNumber),
    ensures
        controls_misaligned_count(cs, t) == 0,
    decreases cs.len(),
{
    if cs.len() > 0 {
        assert(!misaligned(cs[cs.len() - 1], t));
        lemma_no_box_nothing_misaligned(cs.drop_last(), t);
    }
}

proof fn lemma_no_box_paras(ps: Seq<Paragraph>, t: u32)
    requires
        forall|i: int, j: int|
            0 <= i < ps.len() && 0 <= j < ps[i].controls@.len() ==> !(#[trigger] ps[i].controls@[j] matches Control::Shape(s)
                && footer_role(*s) == FooterRole::PageNumber),
    ensures
        paras_misaligned_count(ps, t) == 0,
    decreases ps.len(),
{
    if ps.len() > 0 {
        let cs = ps[ps.len() - 1].controls@;
        assert forall|j: int| 0 <= j < cs.len() implies !(#[trigger] cs[j] matches Control::Shape(
            s,
        ) && footer_role(*s) == FooterRole::PageNumber) by {
            assert(ps[ps.len() - 1].controls@[j] == cs[j]);
        }
        lemma_no_box_nothing_misaligned(cs, t);
        assert forall|i: int, j: int|
            0 <= i < ps.drop_last().len() && 0 <= j < ps.drop_last()[i].controls@.len() implies !(
            #[trigger] ps.drop_last()[i].controls@[j] matches Control::Shape(s) && footer_role(*s)
                == FooterRole::PageNumber) by {
            assert(ps.drop_last()[i] == ps[i]);
        }
        lemma_no_box_paras(ps.drop_last(), t);
    }
}

/// A master page without a page-number box has nothing to align: the count of moved boxes
/// is zero, whatever pictures, lines or other boxes it holds.
pub proof fn law_no_page_number_box_moves_nothing(mp: MasterPage)
    requires
        forall|i: int, j: int|
            0 <= i < mp.paragraphs@.len() && 0 <= j < mp.paragraphs@[i].controls@.len() ==> !(
            #[trigger] mp.paragraphs@[i].controls@[j] matches Control::Shape(s) && footer_role(*s)
                == FooterRole::PageNumber),
    ensures
        master_align_count(mp) == 0,
{
    if let Some(t) = last_role_voff(mp, FooterRole::Title) {
        lemma_no_box_paras(mp.paragraphs@, t);
    }
}

} // verus!
