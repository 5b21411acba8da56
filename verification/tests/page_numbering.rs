use rhwp::errors::HwpError;
use rhwp::footer_align::{
    align_master_footer, collect_footer_voff_map, patch_ctrl_header_voff, shape_footer_role,
    FooterRole,
};
use rhwp::model::{
    AutoNumber, AutoNumberType, Cell, CommonObjAttr, Control, Document, DrawingKind,
    DrawingObjAttr, DrawingShape, GroupShape, HeaderFooter, HeaderFooterApply, MasterPage,
    NewNumber, Paragraph, Picture, RawRecord, Section, SectionDef, ShapeObject, Table, TextBox,
};
use rhwp::page_format::{update_control, update_paragraph, update_shape};
use rhwp::page_numbering::DocumentCore;
use std::collections::HashMap;

fn para(text: &str, controls: Vec<Control>) -> Paragraph {
    Paragraph {
        text: text.to_string(),
        char_offsets: Vec::new(),
        controls,
        ctrl_data_records: Vec::new(),
    }
}

fn common(voff: u32) -> CommonObjAttr {
    CommonObjAttr { vertical_offset: voff, horizontal_offset: 0, width: 100, height: 50 }
}

fn text_box_shape(voff: u32, paras: Vec<Paragraph>) -> ShapeObject {
    ShapeObject::Drawing(DrawingShape {
        kind: DrawingKind::Rectangle,
        common: common(voff),
        drawing: DrawingObjAttr { text_box: Some(TextBox { paragraphs: paras }) },
    })
}

fn text_box(voff: u32, paras: Vec<Paragraph>) -> Control {
    Control::Shape(Box::new(text_box_shape(voff, paras)))
}

fn page_number(format: u8) -> Control {
    Control::AutoNumber(AutoNumber { number_type: AutoNumberType::Page, format, number: 0 })
}

fn master(paras: Vec<Paragraph>) -> MasterPage {
    let mut mp = MasterPage::default();
    mp.paragraphs = paras;
    mp
}

/// A footer with a page-number box at `pn_voff` and a title box at `title_voff`.
fn footer_master(pn_voff: u32, title_voff: u32) -> MasterPage {
    master(vec![para(
        "",
        vec![
            text_box(pn_voff, vec![para("- ", vec![page_number(0)])]),
            text_box(title_voff, vec![para("작품명", vec![])]),
        ],
    )])
}

fn ctrl_header(voff: u32) -> RawRecord {
    let mut data = vec![0u8; 16];
    data[8..12].copy_from_slice(&voff.to_le_bytes());
    RawRecord { tag_id: 71, level: 1, data }
}

fn section(paragraphs: Vec<Paragraph>, masters: Vec<MasterPage>) -> Section {
    Section {
        section_def: SectionDef { master_pages: masters, extra_child_records: Vec::new() },
        paragraphs,
        raw_stream: Some(vec![1, 2, 3]),
    }
}

fn doc_core(sections: Vec<Section>) -> DocumentCore {
    DocumentCore { document: Document { sections } }
}

fn render_error(r: Result<String, HwpError>) -> String {
    match r {
        Err(HwpError::RenderError(m)) => m,
        Ok(s) => panic!("expected an error, got {s}"),
    }
}

// ---- add_new_number_native

#[test]
fn new_number_goes_before_the_character() {
    let mut p = para("ab", vec![page_number(0)]);
    // one control (8 code units) before the text: a at 8, b at 9
    p.char_offsets = vec![8, 9];
    p.ctrl_data_records = vec![None];
    let mut dc = doc_core(vec![section(vec![p], vec![])]);
    let r = dc.add_new_number_native(0, 0, 1, 5).unwrap();
    assert_eq!(r, "{\"ok\":true}");
    let p = &dc.document.sections[0].paragraphs[0];
    assert_eq!(p.controls.len(), 2);
    assert!(matches!(
        p.controls[1],
        Control::NewNumber(NewNumber { number_type: AutoNumberType::Page, number: 5 })
    ));
    assert_eq!(p.ctrl_data_records.len(), 2);
    assert!(p.ctrl_data_records[1].is_none());
    assert_eq!(p.char_offsets.len(), 3);
    assert!(dc.document.sections[0].raw_stream.is_none());
}

#[test]
fn new_number_in_paragraph_without_offsets() {
    let mut dc = doc_core(vec![section(vec![para("", vec![])], vec![])]);
    assert_eq!(dc.add_new_number_native(0, 0, 0, 1).unwrap(), "{\"ok\":true}");
    let p = &dc.document.sections[0].paragraphs[0];
    assert_eq!(p.controls.len(), 1);
    assert!(p.char_offsets.is_empty());
    assert_eq!(p.ctrl_data_records.len(), 1);
}

#[test]
fn new_number_out_of_range_errors() {
    let mut dc = doc_core(vec![section(vec![para("", vec![])], vec![])]);
    assert_eq!(render_error(dc.add_new_number_native(1, 0, 0, 1)), "구역 범위 초과");
    assert_eq!(render_error(dc.add_new_number_native(0, 3, 0, 1)), "문단 범위 초과");
    assert!(dc.document.sections[0].raw_stream.is_some());
    assert!(dc.document.sections[0].paragraphs[0].controls.is_empty());
}

// ---- set_master_page_page_number_format_native

#[test]
fn format_reaches_every_page_number() {
    let nested = para(
        "",
        vec![
            text_box(10, vec![para("", vec![page_number(0)])]),
            Control::Shape(Box::new(ShapeObject::Group(GroupShape {
                common: common(0),
                children: vec![text_box_shape(20, vec![para("", vec![page_number(0)])])],
            }))),
            Control::Table(Box::new(Table {
                cells: vec![Cell { paragraphs: vec![para("", vec![page_number(0)])] }],
            })),
            Control::Footer(Box::new(HeaderFooter {
                apply_to: HeaderFooterApply::Both,
                paragraphs: vec![para("", vec![page_number(0)])],
            })),
            Control::AutoNumber(AutoNumber {
                number_type: AutoNumberType::Footnote,
                format: 0,
                number: 0,
            }),
        ],
    );
    let mut dc = doc_core(vec![section(vec![], vec![master(vec![nested])])]);
    let r = dc.set_master_page_page_number_format_native(0, 4).unwrap();
    assert_eq!(r, "{\"ok\":true,\"updated\":4}");
    assert!(dc.document.sections[0].raw_stream.is_none());
    // updating again with the same format finds the same four numbers
    let r = dc.set_master_page_page_number_format_native(0, 4).unwrap();
    assert_eq!(r, "{\"ok\":true,\"updated\":4}");
}

#[test]
fn format_without_page_numbers_keeps_stream() {
    let mut dc = doc_core(vec![section(vec![], vec![master(vec![para("x", vec![])])])]);
    let r = dc.set_master_page_page_number_format_native(0, 5).unwrap();
    assert_eq!(r, "{\"ok\":true,\"updated\":0}");
    assert!(dc.document.sections[0].raw_stream.is_some());
}

#[test]
fn format_out_of_range_errors() {
    let mut dc = doc_core(vec![]);
    assert_eq!(render_error(dc.set_master_page_page_number_format_native(0, 0)), "구역 범위 초과");
}

#[test]
fn update_functions_count_page_numbers() {
    let mut p = para("", vec![page_number(0), page_number(0)]);
    assert_eq!(update_paragraph(&mut p, 5), 2);
    assert!(matches!(p.controls[0], Control::AutoNumber(AutoNumber { format: 5, .. })));
    let mut c = page_number(0);
    assert_eq!(update_control(&mut c, 4), 1);
    let mut other = Control::Unknown(7);
    assert_eq!(update_control(&mut other, 4), 0);
    let mut s = text_box_shape(0, vec![para("", vec![page_number(0)])]);
    assert_eq!(update_shape(&mut s, 4), 1);
    let mut pic = ShapeObject::Picture(Picture { common: common(0), bin_data_id: 1 });
    assert_eq!(update_shape(&mut pic, 4), 0);
}

// ---- footer alignment

#[test]
fn footer_roles() {
    let pn = text_box_shape(0, vec![para("", vec![page_number(0)])]);
    let title = text_box_shape(0, vec![para(" 작품명 ", vec![])]);
    let blank = text_box_shape(0, vec![para("   ", vec![])]);
    let with_picture = text_box_shape(
        0,
        vec![para("t", vec![Control::Picture(Box::new(Picture { common: common(0), bin_data_id: 1 }))])],
    );
    assert_eq!(shape_footer_role(&pn), FooterRole::PageNumber);
    assert_eq!(shape_footer_role(&title), FooterRole::Title);
    assert_eq!(shape_footer_role(&blank), FooterRole::Other);
    assert_eq!(shape_footer_role(&with_picture), FooterRole::Other);
}

#[test]
fn page_number_box_meets_title() {
    let mut mp = footer_master(1000, 1200);
    assert_eq!(align_master_footer(&mut mp), 1);
    match &mp.paragraphs[0].controls[0] {
        Control::Shape(s) => assert_eq!(s.vertical_offset(), 1200),
        _ => panic!("shape expected"),
    }
    // aligning again changes nothing
    assert_eq!(align_master_footer(&mut mp), 0);
}

#[test]
fn voff_map_and_patch() {
    let mp = footer_master(1000, 1200);
    let mut map = HashMap::new();
    collect_footer_voff_map(&mp, &mut map);
    assert_eq!(map.get(&1000), Some(&1200));
    let mut recs = vec![ctrl_header(1000), ctrl_header(7), RawRecord { tag_id: 70, level: 0, data: vec![0; 16] }];
    assert_eq!(patch_ctrl_header_voff(&mut recs, &map), 1);
    assert_eq!(&recs[0].data[8..12], &1200u32.to_le_bytes());
    assert_eq!(&recs[1].data[8..12], &7u32.to_le_bytes());
}

#[test]
fn align_section_patches_records_and_model() {
    let mut s = section(vec![], vec![footer_master(1000, 1200)]);
    s.section_def.extra_child_records = vec![ctrl_header(1000), ctrl_header(1200)];
    let mut dc = doc_core(vec![s]);
    let r = dc.align_master_footer_voffset(0).unwrap();
    assert_eq!(r, "{\"ok\":true,\"aligned\":1}");
    let s = &dc.document.sections[0];
    assert_eq!(&s.section_def.extra_child_records[0].data[8..12], &1200u32.to_le_bytes());
    assert!(s.raw_stream.is_none());
    match &s.section_def.master_pages[0].paragraphs[0].controls[0] {
        Control::Shape(sh) => assert_eq!(sh.vertical_offset(), 1200),
        _ => panic!("shape expected"),
    }
}

#[test]
fn align_section_uses_section_def_control() {
    let sd = SectionDef {
        master_pages: vec![footer_master(500, 800)],
        extra_child_records: vec![ctrl_header(500)],
    };
    let p = para("", vec![Control::SectionDef(Box::new(sd))]);
    let mut dc = doc_core(vec![section(vec![p], vec![])]);
    let r = dc.align_master_footer_voffset(0).unwrap();
    assert_eq!(r, "{\"ok\":true,\"aligned\":1}");
}

#[test]
fn align_without_footer_boxes() {
    let mut dc = doc_core(vec![section(vec![], vec![master(vec![para("x", vec![])])])]);
    assert_eq!(dc.align_master_footer_voffset(0).unwrap(), "{\"ok\":true,\"aligned\":0}");
    assert!(dc.document.sections[0].raw_stream.is_some());
    assert_eq!(render_error(dc.align_master_footer_voffset(2)), "구역 범위 초과");
}

#[test]
fn aligning_a_section_twice_changes_nothing_more() {
    let mut s = section(vec![], vec![footer_master(1000, 1200)]);
    s.section_def.extra_child_records = vec![ctrl_header(1000), ctrl_header(1200)];
    let mut dc = doc_core(vec![s]);
    assert_eq!(dc.align_master_footer_voffset(0).unwrap(), "{\"ok\":true,\"aligned\":1}");
    let records: Vec<Vec<u8>> =
        dc.document.sections[0].section_def.extra_child_records.iter().map(|r| r.data.clone()).collect();
    assert_eq!(dc.align_master_footer_voffset(0).unwrap(), "{\"ok\":true,\"aligned\":0}");
    let again: Vec<Vec<u8>> =
        dc.document.sections[0].section_def.extra_child_records.iter().map(|r| r.data.clone()).collect();
    assert_eq!(records, again);
}

#[test]
fn format_set_twice_counts_the_same() {
    let m = master(vec![para("", vec![text_box(10, vec![para("", vec![page_number(0), page_number(3)])])])]);
    let mut dc = doc_core(vec![section(vec![], vec![m])]);
    assert_eq!(dc.set_master_page_page_number_format_native(0, 4).unwrap(), "{\"ok\":true,\"updated\":2}");
    assert_eq!(dc.set_master_page_page_number_format_native(0, 5).unwrap(), "{\"ok\":true,\"updated\":2}");
    match &dc.document.sections[0].section_def.master_pages[0].paragraphs[0].controls[0] {
        Control::Shape(s) => match &**s {
            ShapeObject::Drawing(d) => {
                let ps = &d.drawing.text_box.as_ref().unwrap().paragraphs;
                for c in &ps[0].controls {
                    assert!(matches!(c, Control::AutoNumber(AutoNumber { format: 5, .. })));
                }
            }
            _ => panic!("drawing expected"),
        },
        _ => panic!("shape expected"),
    }
}
