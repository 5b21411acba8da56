//! Page-numbering operations on a document: inserting a new-number control that restarts
//! the page counter, and setting the format of the page numbers in a section's master pages.
use vstd::prelude::*;
use crate::errors::HwpError;
use crate::model::{AutoNumberType, Control, Document, NewNumber, Paragraph, Section};
use crate::page_format::{law_format_update_composes, masters_formatted, masters_page_count, update_master_pages};
use crate::text::{decimal, push_decimal, push_str, string_of};

verus! {

/// A document being edited.
#[derive(Debug)]
pub struct DocumentCore {
    pub document: Document,
}

pub open spec fn section_out_of_range() -> Seq<char> {
    "구역 범위 초과"@
}

pub open spec fn paragraph_out_of_range() -> Seq<char> {
    "문단 범위 초과"@
}

/// The JSON reply `{"ok":true,"<key>":<n>}`.
pub open spec fn ok_count_json(key: Seq<char>, n: nat) -> Seq<char> {
    "{\"ok\":true,\""@ + key + "\":"@ + decimal(n) + "}"@
}

pub fn ok_count_reply(key: &str, n: u64) -> (r: String)
    ensures
        r@ == ok_count_json(key@, n as nat),
{
    let mut r = string_of("{\"ok\":true,\"");
    push_str(&mut r, key);
    push_str(&mut r, "\":");
    push_decimal(&mut r, n);
    push_str(&mut r, "}");
    r
}

/// Whether `e` is `RenderError` with message `m`.
pub open spec fn is_render_error(e: HwpError, m: Seq<char>) -> bool {
    e matches HwpError::RenderError(s) && s@ == m
}

/// Every section other than `sec` is as it was.
pub open spec fn other_sections_unchanged(a: Seq<Section>, b: Seq<Section>, sec: int) -> bool {
    &&& a.len() == b.len()
    &&& forall|j: int| 0 <= j < a.len() && j != sec ==> #[trigger] b[j] == a[j]
}

// ---------------------------------------------------------------------------------------
// Where a new control goes. A paragraph's raw stream gives each control 8 code units and
// each character of the text one; `char_offsets[c]` is the raw position of character `c`,
// so `(char_offsets[c] - c) / 8` controls stand before it.

/// The index in `controls` at which a control placed before character `char_offset` goes.
pub open spec fn control_insert_index(p: Paragraph, char_offset: int) -> int {
    let n = p.controls@.len() as int;
    if 0 <= char_offset < p.char_offsets@.len() {
        let k = (p.char_offsets@[char_offset] as int - char_offset) / 8;
        if k < 0 {
            0
        } else if k > n {
            n
        } else {
            k
        }
    } else {
        n
    }
}

/// The raw-stream position of character `char_offset`; past the text, the position right
/// after its last character (saturating), or 0 for a paragraph without offsets.
pub open spec fn char_offset_raw(p: Paragraph, char_offset: int) -> u32 {
    let len = p.char_offsets@.len();
    if 0 <= char_offset < len {
        p.char_offsets@[char_offset]
    } else if len > 0 {
        if p.char_offsets@[len - 1] == u32::MAX {
            u32::MAX
        } else {
            (p.char_offsets@[len - 1] + 1) as u32
        }
    } else {
        0
    }
}

pub fn find_control_insert_index(p: &Paragraph, char_offset: usize) -> (idx: usize)
    ensures
        idx == control_insert_index(*p, char_offset as int),
        idx <= p.controls@.len(),
{
    let n = p.controls.len();
    if char_offset < p.char_offsets.len() {
        let raw = p.char_offsets[char_offset] as u64;
        let c = char_offset as u64;
        if raw < c {
            assert((raw as int - c as int) / 8 < 0) by (nonlinear_arith)
                requires
                    raw < c,
            ;
            0
        } else {
            let k = (raw - c) / 8;
            if k > n as u64 {
                n
            } else {
                k as usize
            }
        }
    } else {
        n
    }
}

pub fn char_offset_to_raw(p: &Paragraph, char_offset: usize) -> (raw: u32)
    ensures
        raw == char_offset_raw(*p, char_offset as int),
{
    let len = p.char_offsets.len();
    if char_offset < len {
        p.char_offsets[char_offset]
    } else if len > 0 {
        let last = p.char_offsets[len - 1];
        if last == u32::MAX {
            u32::MAX
        } else {
            last + 1
        }
    } else {
        0
    }
}

/// The inputs on which a new control can be inserted: where the paragraph records character
/// offsets, the insertion index lies within them.
pub open spec fn insert_fits(p: Paragraph, char_offset: int) -> bool {
    p.char_offsets@.len() == 0 || control_insert_index(p, char_offset) <= p.char_offsets@.len()
}

/// Paragraph `b` is `a` with `NewNumber(Page, number)` inserted before character `char_offset`.
pub open spec fn new_number_inserted(a: Paragraph, b: Paragraph, char_offset: int, number: u16) -> bool {
    let idx = control_insert_index(a, char_offset);
    &&& b.text == a.text
    &&& b.controls@ == a.controls@.insert(
        idx,
        Control::NewNumber(NewNumber { number_type: AutoNumberType::Page, number }),
    )
    &&& b.ctrl_data_records@ == if a.ctrl_data_records@.len() >= idx {
        a.ctrl_data_records@.insert(idx, None)
    } else {
        a.ctrl_data_records@
    }
    &&& b.char_offsets@ == if a.char_offsets@.len() > 0 {
        a.char_offsets@.insert(idx, char_offset_raw(a, char_offset))
    } else {
        a.char_offsets@
    }
}

/// What setting the page-number format `f` of section `sec` does, from sections `s0` to
/// `s1`: an error for a section that does not exist; otherwise every page number of the
/// section's master pages shows `f`, nothing else changes, the stream as read is dropped
/// when a page number was found, and the reply counts the page numbers.
pub open spec fn format_outcome(
    s0: Seq<Section>,
    sec: int,
    f: u8,
    r: Result<String, HwpError>,
    s1: Seq<Section>,
) -> bool {
    match r {
        Err(e) => {
            &&& sec >= s0.len()
            &&& is_render_error(e, section_out_of_range())
            &&& s1 == s0
        },
        Ok(s) => {
            let a = s0[sec];
            let b = s1[sec];
            let n = masters_page_count(a.section_def.master_pages@);
            &&& 0 <= sec < s0.len()
            &&& s@ == ok_count_json("updated"@, n)
            &&& other_sections_unchanged(s0, s1, sec)
            &&& b.paragraphs == a.paragraphs
            &&& b.section_def.extra_child_records == a.section_def.extra_child_records
            &&& masters_formatted(a.section_def.master_pages@, b.section_def.master_pages@, f)
            &&& b.raw_stream == if n > 0 {
                None
            } else {
                a.raw_stream
            }
        },
    }
}

/// Setting the page-number format of a section twice, with `f` and then `g`: the second call
/// succeeds exactly when the first did, replies the same count, and leaves the document as
/// one call with `g` would have left it. With `g == f` the second call changes nothing: the
/// page numbers already show `f`, so it sets each to the format it has and keeps the
/// paragraphs, raw records and stream of the section and every other section as the first
/// call left them.
pub proof fn law_set_format_twice(
    s0: Seq<Section>,
    s1: Seq<Section>,
    s2: Seq<Section>,
    sec: int,
    f: u8,
    g: u8,
    r1: Result<String, HwpError>,
    r2: Result<String, HwpError>,
)
    requires
        format_outcome(s0, sec, f, r1, s1),
        format_outcome(s1, sec, g, r2, s2),
    ensures
        format_outcome(s0, sec, g, r2, s2),
        r1 is Ok <==> r2 is Ok,
        r1 is Ok ==> r1->Ok_0@ == r2->Ok_0@,
        0 <= sec < s0.len() ==> masters_page_count(s1[sec].section_def.master_pages@)
            == masters_page_count(s0[sec].section_def.master_pages@),
        f == g ==> ({
            let b = s1[sec];
            let c = s2[sec];
            &&& r2 is Err ==> s2 == s1
            &&& r2 is Ok ==> {
                &&& other_sections_unchanged(s1, s2, sec)
                &&& c.paragraphs == b.paragraphs
                &&& c.section_def.extra_child_records == b.section_def.extra_child_records
                &&& c.raw_stream == b.raw_stream
                &&& masters_formatted(b.section_def.master_pages@, b.section_def.master_pages@, f)
                &&& masters_formatted(b.section_def.master_pages@, c.section_def.master_pages@, f)
            }
        }),
{
    if 0 <= sec < s0.len() {
        assert(r1 is Ok);
        let a = s0[sec].section_def.master_pages@;
        let b = s1[sec].section_def.master_pages@;
        assert(r2 is Ok);
        let c = s2[sec].section_def.master_pages@;
        law_format_update_composes(a, b, c, f, g);
        crate::page_format::law_format_update_idempotent(a, b, f);
    }
}

impl DocumentCore {
    /// Inserts `NewNumber(Page = number)` into paragraph `para` of section `sec`, before
    /// character `char_offset`: the page counter restarts at `number` there.
    pub fn add_new_number_native(&mut self, sec: usize, para: usize, char_offset: usize, number: u16)
        -> (r: Result<String, HwpError>)
        requires
            sec < old(self).document.sections@.len() && para < old(
                self,
            ).document.sections@[sec as int].paragraphs@.len() ==> insert_fits(
                old(self).document.sections@[sec as int].paragraphs@[para as int],
                char_offset as int,
            ),
        ensures
            match r {
                Err(e) => {
                    &&& *final(self) == *old(self)
                    &&& if sec >= old(self).document.sections@.len() {
                        is_render_error(e, section_out_of_range())
                    } else {
                        para >= old(self).document.sections@[sec as int].paragraphs@.len()
                            && is_render_error(e, paragraph_out_of_range())
                    }
                },
                Ok(s) => {
                    let a = old(self).document.sections@[sec as int];
                    let b = final(self).document.sections@[sec as int];
                    &&& sec < old(self).document.sections@.len()
                    &&& para < a.paragraphs@.len()
                    &&& s@ == "{\"ok\":true}"@
                    &&& other_sections_unchanged(
                        old(self).document.sections@,
                        final(self).document.sections@,
                        sec as int,
                    )
                    &&& b.section_def == a.section_def
                    &&& b.raw_stream is None
                    &&& b.paragraphs@.len() == a.paragraphs@.len()
                    &&& forall|j: int|
                        0 <= j < a.paragraphs@.len() && j != para ==> #[trigger] b.paragraphs@[j]
                            == a.paragraphs@[j]
                    &&& new_number_inserted(
                        a.paragraphs@[para as int],
                        b.paragraphs@[para as int],
                        char_offset as int,
                        number,
                    )
                },
            },
    {
        if sec >= self.document.sections.len() {
            return Err(HwpError::RenderError(string_of("구역 범위 초과")));
        }
        if para >= self.document.sections[sec].paragraphs.len() {
            return Err(HwpError::RenderError(string_of("문단 범위 초과")));
        }
        let ghost old_sections = self.document.sections@;
        let section = &mut self.document.sections[sec];
        let paragraph = &mut section.paragraphs[para];
        let insert_idx = find_control_insert_index(paragraph, char_offset);
        let raw_offset = char_offset_to_raw(paragraph, char_offset);
        paragraph.controls.insert(
            insert_idx,
            Control::NewNumber(NewNumber { number_type: AutoNumberType::Page, number }),
        );
        // A new-number control has no control-data record: it takes an empty slot.
        if paragraph.ctrl_data_records.len() >= insert_idx {
            paragraph.ctrl_data_records.insert(insert_idx, None);
        }
        if paragraph.char_offsets.len() > 0 {
            paragraph.char_offsets.insert(insert_idx, raw_offset);
        }
        // The stream as read no longer matches the model.
        section.raw_stream = None;
        Ok(string_of("{\"ok\":true}"))
    }

    /// Sets the format of every page number in the master pages of section `sec`
    /// (HWP number-format table: 0 = digits, 4 = A, B, C, 5 = a, b, c).
    pub fn set_master_page_page_number_format_native(&mut self, sec: usize, format: u8) -> (r:
        Result<String, HwpError>)
        requires
            sec < old(self).document.sections@.len() ==> masters_page_count(
                old(self).document.sections@[sec as int].section_def.master_pages@,
            ) <= u32::MAX,
        ensures
            format_outcome(
                old(self).document.sections@,
                sec as int,
                format,
                r,
                final(self).document.sections@,
            ),
            r is Err ==> *final(self) == *old(self),
    {
        if sec >= self.document.sections.len() {
            return Err(HwpError::RenderError(string_of("구역 범위 초과")));
        }
        let section = &mut self.document.sections[sec];
        let updated = update_master_pages(&mut section.section_def.master_pages, format);
        if updated > 0 {
            section.raw_stream = None;
        }
        Ok(ok_count_reply("updated", updated as u64))
    }
}

} // verus!
