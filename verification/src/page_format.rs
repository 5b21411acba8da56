//! Setting the display format of every page number (`AutoNumber` of type `Page`) that the
//! master pages of a section hold, at any depth: in text boxes, groups, tables, headers
//! and footers.
use vstd::prelude::*;
use crate::model::{AutoNumber, AutoNumberType, Cell, Control, MasterPage, Paragraph, ShapeObject};

verus! {

// ---------------------------------------------------------------------------------------
// How many page numbers a part of the document holds.

pub open spec fn paras_page_count(s: Seq<Paragraph>) -> nat
    decreases s,
{
    if s.len() == 0 {
        0
    } else {
        paras_page_count(s.drop_last()) + para_page_count(s.last())
    }
}

pub open spec fn para_page_count(p: Paragraph) -> nat
    decreases p,
{
    controls_page_count(p.controls@)
}

pub open spec fn controls_page_count(s: Seq<Control>) -> nat
    decreases s,
{
    if s.len() == 0 {
        0
    } else {
        controls_page_count(s.drop_last()) + control_page_count(s.last())
    }
}

pub open spec fn control_page_count(c: Control) -> nat
    decreases c,
{
    match c {
        Control::AutoNumber(an) => if an.number_type == AutoNumberType::Page {
            1
        } else {
            0
        },
        Control::Shape(s) => shape_page_count(*s),
        Control::Table(t) => cells_page_count(t.cells@),
        Control::Header(h) => paras_page_count(h.paragraphs@),
        Control::Footer(h) => paras_page_count(h.paragraphs@),
        _ => 0,
    }
}

pub open spec fn cells_page_count(s: Seq<Cell>) -> nat
    decreases s,
{
    if s.len() == 0 {
        0
    } else {
        cells_page_count(s.drop_last()) + paras_page_count(s.last().paragraphs@)
    }
}

pub open spec fn shape_page_count(s: ShapeObject) -> nat
    decreases s,
{
    match s {
        ShapeObject::Drawing(d) => match d.drawing.text_box {
            Some(tb) => paras_page_count(tb.paragraphs@),
            None => 0,
        },
        ShapeObject::Group(g) => shapes_page_count(g.children@),
        ShapeObject::Picture(_) => 0,
    }
}

pub open spec fn shapes_page_count(s: Seq<ShapeObject>) -> nat
    decreases s,
{
    if s.len() == 0 {
        0
    } else {
        shapes_page_count(s.drop_last()) + shape_page_count(s.last())
    }
}

pub open spec fn masters_page_count(s: Seq<MasterPage>) -> nat
    decreases s.len(),
{
    if s.len() == 0 {
        0
    } else {
        masters_page_count(s.drop_last()) + paras_page_count(s.last().paragraphs@)
    }
}

// ---------------------------------------------------------------------------------------
// `b` is `a` with the format of every page number set to `f`, and nothing else changed.

pub open spec fn paras_formatted(a: Seq<Paragraph>, b: Seq<Paragraph>, f: u8) -> bool
    decreases a,
{
    &&& a.len() == b.len()
    &&& forall|i: int| 0 <= i < a.len() ==> para_formatted(#[trigger] a[i], b[i], f)
}

pub open spec fn para_formatted(a: Paragraph, b: Paragraph, f: u8) -> bool
    decreases a,
{
    &&& a.text == b.text
    &&& a.char_offsets == b.char_offsets
    &&& a.ctrl_data_records == b.ctrl_data_records
    &&& controls_formatted(a.controls@, b.controls@, f)
}

pub open spec fn controls_formatted(a: Seq<Control>, b: Seq<Control>, f: u8) -> bool
    decreases a,
{
    &&& a.len() == b.len()
    &&& forall|i: int| 0 <= i < a.len() ==> control_formatted(#[trigger] a[i], b[i], f)
}

pub open spec fn control_formatted(a: Control, b: Control, f: u8) -> bool
    decreases a,
{
    match a {
        Control::AutoNumber(an) => if an.number_type == AutoNumberType::Page {
            b == Control::AutoNumber(AutoNumber { format: f, ..an })
        } else {
            b == a
        },
        Control::Shape(s) => b matches Control::Shape(t) && shape_formatted(*s, *t, f),
        Control::Table(t) => b matches Control::Table(u) && cells_formatted(t.cells@, u.cells@, f),
        Control::Header(h) => b matches Control::Header(g) && g.apply_to == h.apply_to
            && paras_formatted(h.paragraphs@, g.paragraphs@, f),
        Control::Footer(h) => b matches Control::Footer(g) && g.apply_to == h.apply_to
            && paras_formatted(h.paragraphs@, g.paragraphs@, f),
        _ => b == a,
    }
}

pub open spec fn cells_formatted(a: Seq<Cell>, b: Seq<Cell>, f: u8) -> bool
    decreases a,
{
    &&& a.len() == b.len()
    &&& forall|i: int|
        0 <= i < a.len() ==> paras_formatted(#[trigger] a[i].paragraphs@, b[i].paragraphs@, f)
}

pub open spec fn shape_formatted(a: ShapeObject, b: ShapeObject, f: u8) -> bool
    decreases a,
{
    match a {
        ShapeObject::Drawing(d) => b matches ShapeObject::Drawing(e) && e.kind == d.kind
            && e.common == d.common && match d.drawing.text_box {
            Some(tb) => e.drawing.text_box matches Some(tb2) && paras_formatted(
                tb.paragraphs@,
                tb2.paragraphs@,
                f,
            ),
            None => e.drawing.text_box is None,
        },
        ShapeObject::Group(g) => b matches ShapeObject::Group(h) && h.common == g.common
            && shapes_formatted(g.children@, h.children@, f),
        ShapeObject::Picture(_) => b == a,
    }
}

pub open spec fn shapes_formatted(a: Seq<ShapeObject>, b: Seq<ShapeObject>, f: u8) -> bool
    decreases a,
{
    &&& a.len() == b.len()
    &&& forall|i: int| 0 <= i < a.len() ==> shape_formatted(#[trigger] a[i], b[i], f)
}

pub open spec fn master_formatted(a: MasterPage, b: MasterPage, f: u8) -> bool {
    &&& a.apply_to == b.apply_to
    &&& a.is_extension == b.is_extension
    &&& a.overlap == b.overlap
    &&& a.ext_flags == b.ext_flags
    &&& a.text_width == b.text_width
    &&& a.text_height == b.text_height
    &&& a.text_ref == b.text_ref
    &&& a.num_ref == b.num_ref
    &&& paras_formatted(a.paragraphs@, b.paragraphs@, f)
}

pub open spec fn masters_formatted(a: Seq<MasterPage>, b: Seq<MasterPage>, f: u8) -> bool {
    &&& a.len() == b.len()
    &&& forall|i: int| 0 <= i < a.len() ==> master_formatted(#[trigger] a[i], b[i], f)
}

// ---------------------------------------------------------------------------------------
// A prefix of a sequence holds no more page numbers than the whole.

proof fn lemma_paras_count_step(s: Seq<Paragraph>, i: int)
    requires
        0 <= i < s.len(),
    ensures
        paras_page_count(s.take(i + 1)) == paras_page_count(s.take(i)) + para_page_count(s[i]),
        paras_page_count(s.take(i + 1)) <= paras_page_count(s),
    decreases s.len(),
{
    assert(s.take(i + 1).drop_last() =~= s.take(i));
    if i + 1 < s.len() {
        assert(s.drop_last().take(i + 1) =~= s.take(i + 1));
        lemma_paras_count_step(s.drop_last(), i);
    } else {
        assert(s.take(i + 1) =~= s);
    }
}

proof fn lemma_controls_count_step(s: Seq<Control>, i: int)
    requires
        0 <= i < s.len(),
    ensures
        controls_page_count(s.take(i + 1)) == controls_page_count(s.take(i))
            + control_page_count(s[i]),
        controls_page_count(s.take(i + 1)) <= controls_page_count(s),
    decreases s.len(),
{
    assert(s.take(i + 1).drop_last() =~= s.take(i));
    if i + 1 < s.len() {
        assert(s.drop_last().take(i + 1) =~= s.take(i + 1));
        lemma_controls_count_step(s.drop_last(), i);
    } else {
        assert(s.take(i + 1) =~= s);
    }
}

proof fn lemma_cells_count_step(s: Seq<Cell>, i: int)
    requires
        0 <= i < s.len(),
    ensures
        cells_page_count(s.take(i + 1)) == cells_page_count(s.take(i)) + paras_page_count(
            s[i].paragraphs@,
        ),
        cells_page_count(s.take(i + 1)) <= cells_page_count(s),
    decreases s.len(),
{
    assert(s.take(i + 1).drop_last() =~= s.take(i));
    if i + 1 < s.len() {
        assert(s.drop_last().take(i + 1) =~= s.take(i + 1));
        lemma_cells_count_step(s.drop_last(), i);
    } else {
        assert(s.take(i + 1) =~= s);
    }
}

proof fn lemma_shapes_count_step(s: Seq<ShapeObject>, i: int)
    requires
        0 <= i < s.len(),
    ensures
        shapes_page_count(s.take(i + 1)) == shapes_page_count(s.take(i)) + shape_page_count(
            s[i],
        ),
        shapes_page_count(s.take(i + 1)) <= shapes_page_count(s),
    decreases s.len(),
{
    assert(s.take(i + 1).drop_last() =~= s.take(i));
    if i + 1 < s.len() {
        assert(s.drop_last().take(i + 1) =~= s.take(i + 1));
        lemma_shapes_count_step(s.drop_last(), i);
    } else {
        assert(s.take(i + 1) =~= s);
    }
}

proof fn lemma_masters_count_step(s: Seq<MasterPage>, i: int)
    requires
        0 <= i < s.len(),
    ensures
        masters_page_count(s.take(i + 1)) == masters_page_count(s.take(i)) + paras_page_count(
            s[i].paragraphs@,
        ),
        masters_page_count(s.take(i + 1)) <= masters_page_count(s),
    decreases s.len(),
{
    assert(s.take(i + 1).drop_last() =~= s.take(i));
    if i + 1 < s.len() {
        assert(s.drop_last().take(i + 1) =~= s.take(i + 1));
        lemma_masters_count_step(s.drop_last(), i);
    } else {
        assert(s.take(i + 1) =~= s);
    }
}

// ---------------------------------------------------------------------------------------
// The update.

pub fn update_paragraphs(paras: &mut Vec<Paragraph>, format: u8) -> (count: u32)
    requires
        paras_page_count(old(paras)@) <= u32::MAX,
    ensures
        paras_formatted(old(paras)@, final(paras)@, format),
        count == paras_page_count(old(paras)@),
    decreases old(paras)@,
{
    let ghost orig = paras@;
    let n = paras.len();
    let mut count: u32 = 0;
    let mut i: usize = 0;
    while i < n
        invariant
            n == paras@.len() == orig.len(),
            orig == old(paras)@,
            i <= n,
            forall|j: int| 0 <= j < i ==> para_formatted(orig[j], #[trigger] paras@[j], format),
            forall|j: int| i <= j < n ==> #[trigger] paras@[j] == orig[j],
            count == paras_page_count(orig.take(i as int)),
            paras_page_count(orig) <= u32::MAX,
        decreases n - i,
    {
        proof {
            lemma_paras_count_step(orig, i as int);
            assert(decreases_to!(orig => orig[i as int]));
        }
        let c = update_paragraph(&mut paras[i], format);
        count = count + c;
        i = i + 1;
    }
    assert(orig.take(n as int) =~= orig);
    count
}

pub fn update_paragraph(para: &mut Paragraph, format: u8) -> (count: u32)
    requires
        para_page_count(*old(para)) <= u32::MAX,
    ensures
        para_formatted(*old(para), *final(para), format),
        count == para_page_count(*old(para)),
    decreases *old(para),
{
    update_controls(&mut para.controls, format)
}

pub fn update_controls(ctrls: &mut Vec<Control>, format: u8) -> (count: u32)
    requires
        controls_page_count(old(ctrls)@) <= u32::MAX,
    ensures
        controls_formatted(old(ctrls)@, final(ctrls)@, format),
        count == controls_page_count(old(ctrls)@),
    decreases old(ctrls)@,
{
    let ghost orig = ctrls@;
    let n = ctrls.len();
    let mut count: u32 = 0;
    let mut i: usize = 0;
    while i < n
        invariant
            n == ctrls@.len() == orig.len(),
            orig == old(ctrls)@,
            i <= n,
            forall|j: int| 0 <= j < i ==> control_formatted(orig[j], #[trigger] ctrls@[j], format),
            forall|j: int| i <= j < n ==> #[trigger] ctrls@[j] == orig[j],
            count == controls_page_count(orig.take(i as int)),
            controls_page_count(orig) <= u32::MAX,
        decreases n - i,
    {
        proof {
            lemma_controls_count_step(orig, i as int);
            assert(decreases_to!(orig => orig[i as int]));
        }
        let c = update_control(&mut ctrls[i], format);
        count = count + c;
        i = i + 1;
    }
    assert(orig.take(n as int) =~= orig);
    count
}

pub fn update_control(ctrl: &mut Control, format: u8) -> (count: u32)
    requires
        control_page_count(*old(ctrl)) <= u32::MAX,
    ensures
        control_formatted(*old(ctrl), *final(ctrl), format),
        count == control_page_count(*old(ctrl)),
    decreases *old(ctrl),
{
    match ctrl {
        Control::AutoNumber(an) => {
            if an.number_type == AutoNumberType::Page {
                an.format = format;
                1
            } else {
                0
            }
        },
        Control::Shape(shape) => update_shape(&mut **shape, format),
        Control::Table(t) => update_cells(&mut t.cells, format),
        Control::Header(h) => update_paragraphs(&mut h.paragraphs, format),
        Control::Footer(h) => update_paragraphs(&mut h.paragraphs, format),
        _ => 0,
    }
}

pub fn update_cells(cells: &mut Vec<Cell>, format: u8) -> (count: u32)
    requires
        cells_page_count(old(cells)@) <= u32::MAX,
    ensures
        cells_formatted(old(cells)@, final(cells)@, format),
        count == cells_page_count(old(cells)@),
    decreases old(cells)@,
{
    let ghost orig = cells@;
    let n = cells.len();
    let mut count: u32 = 0;
    let mut i: usize = 0;
    while i < n
        invariant
            n == cells@.len() == orig.len(),
            orig == old(cells)@,
            i <= n,
            forall|j: int|
                0 <= j < i ==> paras_formatted(
                    orig[j].paragraphs@,
                    #[trigger] cells@[j].paragraphs@,
                    format,
                ),
            forall|j: int| i <= j < n ==> #[trigger] cells@[j] == orig[j],
            count == cells_page_count(orig.take(i as int)),
            cells_page_count(orig) <= u32::MAX,
        decreases n - i,
    {
        proof {
            lemma_cells_count_step(orig, i as int);
            assert(decreases_to!(orig => orig[i as int]));
            assert(decreases_to!(orig[i as int] => orig[i as int].paragraphs));
            assert(decreases_to!(orig[i as int].paragraphs => orig[i as int].paragraphs@));
        }
        let c = update_paragraphs(&mut cells[i].paragraphs, format);
        count = count + c;
        i = i + 1;
    }
    assert(orig.take(n as int) =~= orig);
    count
}

pub fn update_shape(shape: &mut ShapeObject, format: u8) -> (count: u32)
    requires
        shape_page_count(*old(shape)) <= u32::MAX,
    ensures
        shape_formatted(*old(shape), *final(shape), format),
        count == shape_page_count(*old(shape)),
    decreases *old(shape),
{
    match shape {
        ShapeObject::Group(g) => update_shapes(&mut g.children, format),
        ShapeObject::Drawing(d) => match &mut d.drawing.text_box {
            Some(tb) => update_paragraphs(&mut tb.paragraphs, format),
            None => 0,
        },
        ShapeObject::Picture(_) => 0,
    }
}

pub fn update_shapes(shapes: &mut Vec<ShapeObject>, format: u8) -> (count: u32)
    requires
        shapes_page_count(old(shapes)@) <= u32::MAX,
    ensures
        shapes_formatted(old(shapes)@, final(shapes)@, format),
        count == shapes_page_count(old(shapes)@),
    decreases old(shapes)@,
{
    let ghost orig = shapes@;
    let n = shapes.len();
    let mut count: u32 = 0;
    let mut i: usize = 0;
    while i < n
        invariant
            n == shapes@.len() == orig.len(),
            orig == old(shapes)@,
            i <= n,
            forall|j: int| 0 <= j < i ==> shape_formatted(orig[j], #[trigger] shapes@[j], format),
            forall|j: int| i <= j < n ==> #[trigger] shapes@[j] == orig[j],
            count == shapes_page_count(orig.take(i as int)),
            shapes_page_count(orig) <= u32::MAX,
        decreases n - i,
    {
        proof {
            lemma_shapes_count_step(orig, i as int);
            assert(decreases_to!(orig => orig[i as int]));
        }
        let c = update_shape(&mut shapes[i], format);
        count = count + c;
        i = i + 1;
    }
    assert(orig.take(n as int) =~= orig);
    count
}

/// Sets the format of every page number in the given master pages.
pub fn update_master_pages(mps: &mut Vec<MasterPage>, format: u8) -> (count: u32)
    requires
        masters_page_count(old(mps)@) <= u32::MAX,
    ensures
        masters_formatted(old(mps)@, final(mps)@, format),
        count == masters_page_count(old(mps)@),
{
    let ghost orig = mps@;
    let n = mps.len();
    let mut count: u32 = 0;
    let mut i: usize = 0;
    while i < n
        invariant
            n == mps@.len() == orig.len(),
            orig == old(mps)@,
            i <= n,
            forall|j: int| 0 <= j < i ==> master_formatted(orig[j], #[trigger] mps@[j], format),
            forall|j: int| i <= j < n ==> #[trigger] mps@[j] == orig[j],
            count == masters_page_count(orig.take(i as int)),
            masters_page_count(orig) <= u32::MAX,
        decreases n - i,
    {
        proof {
            lemma_masters_count_step(orig, i as int);
        }
        let c = update_paragraphs(&mut mps[i].paragraphs, format);
        count = count + c;
        i = i + 1;
    }
    assert(orig.take(n as int) =~= orig);
    count
}

} // verus!

verus! {

// ---------------------------------------------------------------------------------------
// A second update with the same format finds the same page numbers and changes nothing.

proof fn lemma_paras_idem(a: Seq<Paragraph>, b: Seq<Paragraph>, f: u8)
    requires
        paras_formatted(a, b, f),
    ensures
        paras_formatted(b, b, f),
        paras_page_count(b) == paras_page_count(a),
    decreases a,
{
    if a.len() > 0 {
        assert(paras_formatted(a.drop_last(), b.drop_last(), f)) by {
            assert forall|i: int| 0 <= i < a.drop_last().len() implies para_formatted(
                #[trigger] a.drop_last()[i],
                b.drop_last()[i],
                f,
            ) by {
                assert(a.drop_last()[i] == a[i]);
            }
        }
        lemma_paras_idem(a.drop_last(), b.drop_last(), f);
        lemma_para_idem(a.last(), b.last(), f);
    }
    assert forall|i: int| 0 <= i < b.len() implies para_formatted(#[trigger] b[i], b[i], f) by {
        lemma_para_idem(a[i], b[i], f);
    }
}

proof fn lemma_para_idem(a: Paragraph, b: Paragraph, f: u8)
    requires
        para_formatted(a, b, f),
    ensures
        para_formatted(b, b, f),
        para_page_count(b) == para_page_count(a),
    decreases a,
{
    lemma_controls_idem(a.controls@, b.controls@, f);
}

proof fn lemma_controls_idem(a: Seq<Control>, b: Seq<Control>, f: u8)
    requires
        controls_formatted(a, b, f),
    ensures
        controls_formatted(b, b, f),
        controls_page_count(b) == controls_page_count(a),
    decreases a,
{
    if a.len() > 0 {
        assert(controls_formatted(a.drop_last(), b.drop_last(), f)) by {
            assert forall|i: int| 0 <= i < a.drop_last().len() implies control_formatted(
                #[trigger] a.drop_last()[i],
                b.drop_last()[i],
                f,
            ) by {
                assert(a.drop_last()[i] == a[i]);
            }
        }
        lemma_controls_idem(a.drop_last(), b.drop_last(), f);
        lemma_control_idem(a.last(), b.last(), f);
    }
    assert forall|i: int| 0 <= i < b.len() implies control_formatted(#[trigger] b[i], b[i], f) by {
        lemma_control_idem(a[i], b[i], f);
    }
}

proof fn lemma_control_idem(a: Control, b: Control, f: u8)
    requires
        control_formatted(a, b, f),
    ensures
        control_formatted(b, b, f),
        control_page_count(b) == control_page_count(a),
    decreases a,
{
    match a {
        Control::Shape(s) => {
            let t = b->Shape_0;
            lemma_shape_idem(*s, *t, f);
        },
        Control::Table(t) => {
            let u = b->Table_0;
            lemma_cells_idem(t.cells@, u.cells@, f);
        },
        Control::Header(h) => {
            let g = b->Header_0;
            lemma_paras_idem(h.paragraphs@, g.paragraphs@, f);
        },
        Control::Footer(h) => {
            let g = b->Footer_0;
            lemma_paras_idem(h.paragraphs@, g.paragraphs@, f);
        },
        _ => {},
    }
}

proof fn lemma_cells_idem(a: Seq<Cell>, b: Seq<Cell>, f: u8)
    requires
        cells_formatted(a, b, f),
    ensures
        cells_formatted(b, b, f),
        cells_page_count(b) == cells_page_count(a),
    decreases a,
{
    if a.len() > 0 {
        assert(cells_formatted(a.drop_last(), b.drop_last(), f)) by {
            assert forall|i: int| 0 <= i < a.drop_last().len() implies paras_formatted(
                #[trigger] a.drop_last()[i].paragraphs@,
                b.drop_last()[i].paragraphs@,
                f,
            ) by {
                assert(a.drop_last()[i] == a[i]);
            }
        }
        lemma_cells_idem(a.drop_last(), b.drop_last(), f);
        lemma_paras_idem(a.last().paragraphs@, b.last().paragraphs@, f);
    }
    assert forall|i: int| 0 <= i < b.len() implies paras_formatted(
        #[trigger] b[i].paragraphs@,
        b[i].paragraphs@,
        f,
    ) by {
        lemma_paras_idem(a[i].paragraphs@, b[i].paragraphs@, f);
    }
}

proof fn lemma_shape_idem(a: ShapeObject, b: ShapeObject, f: u8)
    requires
        shape_formatted(a, b, f),
    ensures
        shape_formatted(b, b, f),
        shape_page_count(b) == shape_page_count(a),
    decreases a,
{
    match a {
        ShapeObject::Drawing(d) => {
            let e = b->Drawing_0;
            if let Some(tb) = d.drawing.text_box {
                let tb2 = e.drawing.text_box->Some_0;
                lemma_paras_idem(tb.paragraphs@, tb2.paragraphs@, f);
            }
        },
        ShapeObject::Group(g) => {
            let h = b->Group_0;
            lemma_shapes_idem(g.children@, h.children@, f);
        },
        ShapeObject::Picture(_) => {},
    }
}

proof fn lemma_shapes_idem(a: Seq<ShapeObject>, b: Seq<ShapeObject>, f: u8)
    requires
        shapes_formatted(a, b, f),
    ensures
        shapes_formatted(b, b, f),
        shapes_page_count(b) == shapes_page_count(a),
    decreases a,
{
    if a.len() > 0 {
        assert(shapes_formatted(a.drop_last(), b.drop_last(), f)) by {
            assert forall|i: int| 0 <= i < a.drop_last().len() implies shape_formatted(
                #[trigger] a.drop_last()[i],
                b.drop_last()[i],
                f,
            ) by {
                assert(a.drop_last()[i] == a[i]);
            }
        }
        lemma_shapes_idem(a.drop_last(), b.drop_last(), f);
        lemma_shape_idem(a.last(), b.last(), f);
    }
    assert forall|i: int| 0 <= i < b.len() implies shape_formatted(#[trigger] b[i], b[i], f) by {
        lemma_shape_idem(a[i], b[i], f);
    }
}

/// Setting the page-number format of master pages twice with the same format: the second
/// pass finds exactly as many page numbers as the first and leaves every master page as it is.
pub proof fn law_format_update_idempotent(a: Seq<MasterPage>, b: Seq<MasterPage>, f: u8)
    requires
        masters_formatted(a, b, f),
    ensures
        masters_formatted(b, b, f),
        masters_page_count(b) == masters_page_count(a),
    decreases a.len(),
{
    if a.len() > 0 {
        assert(masters_formatted(a.drop_last(), b.drop_last(), f)) by {
            assert forall|i: int| 0 <= i < a.drop_last().len() implies master_formatted(
                #[trigger] a.drop_last()[i],
                b.drop_last()[i],
                f,
            ) by {
                assert(a.drop_last()[i] == a[i]);
            }
        }
        law_format_update_idempotent(a.drop_last(), b.drop_last(), f);
        lemma_paras_idem(a.last().paragraphs@, b.last().paragraphs@, f);
    }
    assert forall|i: int| 0 <= i < b.len() implies master_formatted(#[trigger] b[i], b[i], f) by {
        lemma_paras_idem(a[i].paragraphs@, b[i].paragraphs@, f);
    }
}

/// After the update, every page number that the master pages hold at any depth shows format
/// `f`: a page number with another format would be changed by a further update.
pub proof fn law_formatted_page_numbers_show_format(
    a: Seq<MasterPage>,
    b: Seq<MasterPage>,
    f: u8,
    i: int,
    k: int,
    j: int,
)
    requires
        masters_formatted(a, b, f),
        0 <= i < b.len(),
        0 <= k < b[i].paragraphs@.len(),
        0 <= j < b[i].paragraphs@[k].controls@.len(),
        b[i].paragraphs@[k].controls@[j] matches Control::AutoNumber(an) && an.number_type
            == AutoNumberType::Page,
    ensures
        b[i].paragraphs@[k].controls@[j]->AutoNumber_0.format == f,
{
    law_format_update_idempotent(a, b, f);
    assert(master_formatted(b[i], b[i], f));
    assert(para_formatted(b[i].paragraphs@[k], b[i].paragraphs@[k], f));
    assert(control_formatted(
        b[i].paragraphs@[k].controls@[j],
        b[i].paragraphs@[k].controls@[j],
        f,
    ));
}

// ---------------------------------------------------------------------------------------
// An update with format `f` followed by one with format `g` is one update with `g`.

proof fn lemma_paras_compose(a: Seq<Paragraph>, b: Seq<Paragraph>, c: Seq<Paragraph>, f: u8, g: u8)
    requires
        paras_formatted(a, b, f),
        paras_formatted(b, c, g),
    ensures
        paras_formatted(a, c, g),
    decreases a,
{
    assert forall|i: int| 0 <= i < a.len() implies para_formatted(#[trigger] a[i], c[i], g) by {
        lemma_para_compose(a[i], b[i], c[i], f, g);
    }
}

proof fn lemma_para_compose(a: Paragraph, b: Paragraph, c: Paragraph, f: u8, g: u8)
    requires
        para_formatted(a, b, f),
        para_formatted(b, c, g),
    ensures
        para_formatted(a, c, g),
    decreases a,
{
    lemma_controls_compose(a.controls@, b.controls@, c.controls@, f, g);
}

proof fn lemma_controls_compose(a: Seq<Control>, b: Seq<Control>, c: Seq<Control>, f: u8, g: u8)
    requires
        controls_formatted(a, b, f),
        controls_formatted(b, c, g),
    ensures
        controls_formatted(a, c, g),
    decreases a,
{
    assert forall|i: int| 0 <= i < a.len() implies control_formatted(#[trigger] a[i], c[i], g) by {
        lemma_control_compose(a[i], b[i], c[i], f, g);
    }
}

proof fn lemma_control_compose(a: Control, b: Control, c: Control, f: u8, g: u8)
    requires
        control_formatted(a, b, f),
        control_formatted(b, c, g),
    ensures
        control_formatted(a, c, g),
    decreases a,
{
    match a {
        Control::Shape(s) => {
            lemma_shape_compose(*s, *b->Shape_0, *c->Shape_0, f, g);
        },
        Control::Table(t) => {
            lemma_cells_compose(t.cells@, b->Table_0.cells@, c->Table_0.cells@, f, g);
        },
        Control::Header(h) => {
            lemma_paras_compose(
                h.paragraphs@,
                b->Header_0.paragraphs@,
                c->Header_0.paragraphs@,
                f,
                g,
            );
        },
        Control::Footer(h) => {
            lemma_paras_compose(
                h.paragraphs@,
                b->Footer_0.paragraphs@,
                c->Footer_0.paragraphs@,
                f,
                g,
            );
        },
        _ => {},
    }
}

proof fn lemma_cells_compose(a: Seq<Cell>, b: Seq<Cell>, c: Seq<Cell>, f: u8, g: u8)
    requires
        cells_formatted(a, b, f),
        cells_formatted(b, c, g),
    ensures
        cells_formatted(a, c, g),
    decreases a,
{
    assert forall|i: int| 0 <= i < a.len() implies paras_formatted(
        #[trigger] a[i].paragraphs@,
        c[i].paragraphs@,
        g,
    ) by {
        lemma_paras_compose(a[i].paragraphs@, b[i].paragraphs@, c[i].paragraphs@, f, g);
    }
}

proof fn lemma_shape_compose(a: ShapeObject, b: ShapeObject, c: ShapeObject, f: u8, g: u8)
    requires
        shape_formatted(a, b, f),
        shape_formatted(b, c, g),
    ensures
        shape_formatted(a, c, g),
    decreases a,
{
    match a {
        ShapeObject::Drawing(d) => {
            let e = b->Drawing_0;
            let h = c->Drawing_0;
            if let Some(tb) = d.drawing.text_box {
                lemma_paras_compose(
                    tb.paragraphs@,
                    e.drawing.text_box->Some_0.paragraphs@,
                    h.drawing.text_box->Some_0.paragraphs@,
                    f,
                    g,
                );
            }
        },
        ShapeObject::Group(gr) => {
            lemma_shapes_compose(gr.children@, b->Group_0.children@, c->Group_0.children@, f, g);
        },
        ShapeObject::Picture(_) => {},
    }
}

proof fn lemma_shapes_compose(a: Seq<ShapeObject>, b: Seq<ShapeObject>, c: Seq<ShapeObject>, f: u8, g: u8)
    requires
        shapes_formatted(a, b, f),
        shapes_formatted(b, c, g),
    ensures
        shapes_formatted(a, c, g),
    decreases a,
{
    assert forall|i: int| 0 <= i < a.len() implies shape_formatted(#[trigger] a[i], c[i], g) by {
        lemma_shape_compose(a[i], b[i], c[i], f, g);
    }
}

/// Setting the page-number format with `f` and then with `g` finds the same page numbers
/// both times and leaves the master pages as one setting with `g` would.
pub proof fn law_format_update_composes(
    a: Seq<MasterPage>,
    b: Seq<MasterPage>,
    c: Seq<MasterPage>,
    f: u8,
    g: u8,
)
    requires
        masters_formatted(a, b, f),
        masters_formatted(b, c, g),
    ensures
        masters_formatted(a, c, g),
        masters_page_count(b) == masters_page_count(a),
{
    law_format_update_idempotent(a, b, f);
    assert forall|i: int| 0 <= i < a.len() implies master_formatted(#[trigger] a[i], c[i], g) by {
        assert(master_formatted(a[i], b[i], f));
        assert(master_formatted(b[i], c[i], g));
        lemma_paras_compose(a[i].paragraphs@, b[i].paragraphs@, c[i].paragraphs@, f, g);
    }
}

/// Setting the page-number format touches page numbers only: an automatic number of any
/// other kind (footnote, endnote, picture, table, equation) is left exactly as it was, its
/// format included; a page number keeps its kind and number and takes the new format.
pub proof fn law_only_page_numbers_change_format(a: Control, b: Control, f: u8)
    requires
        control_formatted(a, b, f),
        a is AutoNumber,
    ensures
        b is AutoNumber,
        b->AutoNumber_0.number_type == a->AutoNumber_0.number_type,
        b->AutoNumber_0.number == a->AutoNumber_0.number,
        a->AutoNumber_0.number_type != AutoNumberType::Page ==> b == a,
        a->AutoNumber_0.number_type == AutoNumberType::Page ==> b->AutoNumber_0.format == f,
{
}

/// In the master pages of a section, an automatic number that is not a page number keeps
/// its format (and everything else) when the page-number format is set.
pub proof fn law_master_auto_numbers_of_other_kinds_kept(
    a: Seq<MasterPage>,
    b: Seq<MasterPage>,
    f: u8,
    i: int,
    k: int,
    j: int,
)
    requires
        masters_formatted(a, b, f),
        0 <= i < a.len(),
        0 <= k < a[i].paragraphs@.len(),
        0 <= j < a[i].paragraphs@[k].controls@.len(),
        a[i].paragraphs@[k].controls@[j] matches Control::AutoNumber(an) && an.number_type
            != AutoNumberType::Page,
    ensures
        b[i].paragraphs@.len() == a[i].paragraphs@.len(),
        b[i].paragraphs@[k].controls@.len() == a[i].paragraphs@[k].controls@.len(),
        b[i].paragraphs@[k].controls@[j] == a[i].paragraphs@[k].controls@[j],
{
    assert(master_formatted(a[i], b[i], f));
    assert(para_formatted(a[i].paragraphs@[k], b[i].paragraphs@[k], f));
    assert(control_formatted(a[i].paragraphs@[k].controls@[j], b[i].paragraphs@[k].controls@[j], f));
}

} // verus!
