use rhwp::errors::HwpxError;
use rhwp::master_page::{
    master_page_read_step, master_page_type, parse_master_page_attrs, parse_sub_list_attrs,
    parse_u32, parse_u8, write_master_page, MasterPageReadStep, MasterPageReader,
    MasterPageXmlEvent,
};
use rhwp::model::{HeaderFooterApply, MasterPage};

fn pairs(ps: &[(&str, &str)]) -> Vec<(String, String)> {
    ps.iter().map(|(k, v)| (k.to_string(), v.to_string())).collect()
}

#[test]
fn parses_type_and_overlap() {
    let mut mp = MasterPage::default();
    parse_master_page_attrs(
        &pairs(&[("id", "masterpage0"), ("type", "ODD"), ("pageDuplicate", "1")]),
        &mut mp,
    );
    parse_sub_list_attrs(
        &pairs(&[("textWidth", "66612"), ("textHeight", "90846"), ("hasTextRef", "0"), ("hasNumRef", "0")]),
        &mut mp,
    );
    assert_eq!(mp.apply_to, HeaderFooterApply::Odd);
    assert!(mp.overlap);
    assert_eq!(mp.ext_flags, 1);
    assert_eq!(mp.text_width, 66612);
    assert_eq!(mp.text_height, 90846);
}

#[test]
fn last_page_is_extension() {
    let mut mp = MasterPage::default();
    parse_master_page_attrs(&pairs(&[("id", "m"), ("type", "LAST_PAGE"), ("pageDuplicate", "0")]), &mut mp);
    assert!(mp.is_extension);
    assert_eq!(mp.apply_to, HeaderFooterApply::Both);
    assert!(!mp.overlap);
    assert_eq!(mp.ext_flags, 0);
}

#[test]
fn numbers_that_do_not_parse_read_as_zero() {
    assert_eq!(parse_u8("255"), 255);
    assert_eq!(parse_u8("256"), 0);
    assert_eq!(parse_u8("+7"), 7);
    assert_eq!(parse_u8("-1"), 0);
    assert_eq!(parse_u8(""), 0);
    assert_eq!(parse_u8("+"), 0);
    assert_eq!(parse_u32("4294967295"), 4294967295);
    assert_eq!(parse_u32("4294967296"), 0);
    assert_eq!(parse_u32("12a"), 0);
    assert_eq!(parse_u32("0012"), 12);
}

#[test]
fn master_page_types() {
    let mut mp = MasterPage::default();
    assert_eq!(master_page_type(&mp), "BOTH");
    mp.apply_to = HeaderFooterApply::Even;
    assert_eq!(master_page_type(&mp), "EVEN");
    mp.apply_to = HeaderFooterApply::Odd;
    assert_eq!(master_page_type(&mp), "ODD");
    mp.is_extension = true;
    assert_eq!(master_page_type(&mp), "LAST_PAGE");
}

#[test]
fn written_master_page_document() {
    let mut mp = MasterPage::default();
    mp.apply_to = HeaderFooterApply::Even;
    mp.overlap = true;
    mp.text_width = 66612;
    mp.text_height = 90846;
    mp.num_ref = 1;
    let bytes = write_master_page(&mp, 3, "<hp:p/>").unwrap();
    let xml = String::from_utf8(bytes).unwrap();
    assert!(xml.starts_with("<?xml version=\"1.0\" encoding=\"UTF-8\" standalone=\"yes\" ?><masterPage xmlns:ha=\"http://www.hancom.co.kr/hwpml/2011/app\""));
    assert!(xml.contains(" xmlns:config=\"urn:oasis:names:tc:opendocument:xmlns:config:1.0\" id=\"masterpage3\" type=\"EVEN\" pageNumber=\"0\" pageDuplicate=\"1\" pageFront=\"0\">"));
    assert!(xml.ends_with("<hp:subList id=\"\" textDirection=\"HORIZONTAL\" lineWrap=\"BREAK\" vertAlign=\"TOP\" linkListIDRef=\"0\" linkListNextIDRef=\"0\" textWidth=\"66612\" textHeight=\"90846\" hasTextRef=\"0\" hasNumRef=\"1\"><hp:p/></hp:subList></masterPage>"));
    assert_eq!(xml.matches(" xmlns:").count(), 15);
}

#[test]
fn written_attributes_read_back() {
    let mut mp = MasterPage::default();
    mp.apply_to = HeaderFooterApply::Odd;
    mp.overlap = true;
    mp.text_width = 123;
    mp.text_height = 456;
    mp.text_ref = 1;
    mp.num_ref = 2;
    let mut back = MasterPage::default();
    parse_master_page_attrs(
        &pairs(&[("id", "masterpage0"), ("type", master_page_type(&mp)), ("pageNumber", "0"), ("pageDuplicate", "1"), ("pageFront", "0")]),
        &mut back,
    );
    parse_sub_list_attrs(
        &pairs(&[("id", ""), ("textWidth", "123"), ("textHeight", "456"), ("hasTextRef", "1"), ("hasNumRef", "2")]),
        &mut back,
    );
    assert_eq!(back.apply_to, mp.apply_to);
    assert_eq!(back.overlap, mp.overlap);
    assert_eq!((back.text_width, back.text_height, back.text_ref, back.num_ref), (123, 456, 1, 2));
}

// ---- reading a master-page document event by event


fn start(local: &str, ps: &[(&str, &str)]) -> MasterPageXmlEvent {
    MasterPageXmlEvent::Start { local: local.to_string(), attrs: pairs(ps) }
}

fn end(local: &str) -> MasterPageXmlEvent {
    MasterPageXmlEvent::End { local: local.to_string() }
}

#[test]
fn read_steps_follow_the_document() {
    let mut st = MasterPageReader { mp: MasterPage::default(), in_sub_list: false };
    let events = [
        start("masterPage", &[("id", "masterpage0"), ("type", "ODD"), ("pageDuplicate", "1")]),
        start("subList", &[("textWidth", "66612"), ("textHeight", "90846")]),
        start("p", &[]),
        end("p"),
        start("masterPage", &[("type", "EVEN")]),
        end("subList"),
        end("masterPage"),
    ];
    let mut steps = Vec::new();
    for ev in &events {
        steps.push(master_page_read_step(&mut st, ev).unwrap());
    }
    assert_eq!(steps, vec![MasterPageReadStep::Continue, MasterPageReadStep::Continue, MasterPageReadStep::ReadParagraph, MasterPageReadStep::Continue, MasterPageReadStep::Continue, MasterPageReadStep::Continue, MasterPageReadStep::Continue]);
    assert_eq!(st.mp.apply_to, HeaderFooterApply::Odd);
    assert!(st.mp.overlap);
    assert_eq!(st.mp.text_width, 66612);
    assert_eq!(st.mp.text_height, 90846);
    assert!(!st.in_sub_list);
    assert_eq!(master_page_read_step(&mut st, &MasterPageXmlEvent::Eof).unwrap(), MasterPageReadStep::Done);
}

#[test]
fn empty_master_page_tag_sets_attributes() {
    let mut st = MasterPageReader { mp: MasterPage::default(), in_sub_list: false };
    let ev = MasterPageXmlEvent::Empty {
        local: "masterPage".to_string(),
        attrs: pairs(&[("type", "LAST_PAGE")]),
    };
    assert_eq!(master_page_read_step(&mut st, &ev).unwrap(), MasterPageReadStep::Continue);
    assert!(st.mp.is_extension);
}

#[test]
fn end_of_input_inside_sub_list_leaves_it() {
    let mut st = MasterPageReader { mp: MasterPage::default(), in_sub_list: true };
    assert_eq!(master_page_read_step(&mut st, &MasterPageXmlEvent::Eof).unwrap(), MasterPageReadStep::Continue);
    assert!(!st.in_sub_list);
    assert_eq!(master_page_read_step(&mut st, &MasterPageXmlEvent::Eof).unwrap(), MasterPageReadStep::Done);
}

#[test]
fn read_errors_carry_their_place() {
    let mut st = MasterPageReader { mp: MasterPage::default(), in_sub_list: false };
    match master_page_read_step(&mut st, &MasterPageXmlEvent::Error("bad".to_string())) {
        Err(HwpxError::XmlError(m)) => assert_eq!(m, "masterpage: bad"),
        _ => panic!("error expected"),
    }
    st.in_sub_list = true;
    match master_page_read_step(&mut st, &MasterPageXmlEvent::Error("bad".to_string())) {
        Err(HwpxError::XmlError(m)) => assert_eq!(m, "masterpage subList: bad"),
        _ => panic!("error expected"),
    }
}
