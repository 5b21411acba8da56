//! Master pages in HWPX: the `Contents/masterpage{N}.xml` document written for a master
//! page, and how the attributes of `<masterPage>` and `<hp:subList>` set a master page when
//! such a document is read.
//!
//! The page number of a document sits in a text box on its master page, so a master page
//! that is not written loses the page numbers of the HWPX file.
use vstd::prelude::*;
use vstd::string::StrSliceExecFns;
use vstd::utf8::encode_utf8;
use crate::errors::{HwpxError, SerializeError};
use crate::model::{HeaderFooterApply, MasterPage};
use crate::decimal::{all_digits, digits_value, is_digit, digit_val};
use crate::text::{chars_of, decimal, push_decimal, push_str, str_eq, string_of};

verus! {

/// The `type` attribute written for a master page: `LAST_PAGE` for an extension master
/// page, else `BOTH`, `EVEN` or `ODD` after the pages it applies to.
pub open spec fn page_type_name(is_extension: bool, apply_to: HeaderFooterApply) -> Seq<char> {
    if is_extension {
        "LAST_PAGE"@
    } else {
        match apply_to {
            HeaderFooterApply::Both => "BOTH"@,
            HeaderFooterApply::Even => "EVEN"@,
            HeaderFooterApply::Odd => "ODD"@,
        }
    }
}

pub fn master_page_type(mp: &MasterPage) -> (r: &'static str)
    ensures
        r@ == page_type_name(mp.is_extension, mp.apply_to),
{
    if mp.is_extension {
        return "LAST_PAGE";
    }
    match mp.apply_to {
        HeaderFooterApply::Both => "BOTH",
        HeaderFooterApply::Even => "EVEN",
        HeaderFooterApply::Odd => "ODD",
    }
}

/// The namespace declarations on the root element, those of `content.hpf`.
pub open spec fn master_page_ns() -> Seq<char> {
    " xmlns:ha=\"http://www.hancom.co.kr/hwpml/2011/app\" xmlns:hp=\"http://www.hancom.co.kr/hwpml/2011/paragraph\" xmlns:hp10=\"http://www.hancom.co.kr/hwpml/2016/paragraph\" xmlns:hs=\"http://www.hancom.co.kr/hwpml/2011/section\" xmlns:hc=\"http://www.hancom.co.kr/hwpml/2011/core\" xmlns:hh=\"http://www.hancom.co.kr/hwpml/2011/head\" xmlns:hhs=\"http://www.hancom.co.kr/hwpml/2011/history\" xmlns:hm=\"http://www.hancom.co.kr/hwpml/2011/master-page\" xmlns:hpf=\"http://www.hancom.co.kr/schema/2011/hpf\" xmlns:dc=\"http://purl.org/dc/elements/1.1/\" xmlns:opf=\"http://www.idpf.org/2007/opf/\" xmlns:ooxmlchart=\"http://www.hancom.co.kr/hwpml/2016/ooxmlchart\" xmlns:hwpunitchar=\"http://www.hancom.co.kr/hwpml/2016/HwpUnitChar\" xmlns:epub=\"http://www.idpf.org/2007/ops\" xmlns:config=\"urn:oasis:names:tc:opendocument:xmlns:config:1.0\""@
}

fn master_page_ns_str() -> (r: &'static str)
    ensures
        r@ == master_page_ns(),
{
    " xmlns:ha=\"http://www.hancom.co.kr/hwpml/2011/app\" xmlns:hp=\"http://www.hancom.co.kr/hwpml/2011/paragraph\" xmlns:hp10=\"http://www.hancom.co.kr/hwpml/2016/paragraph\" xmlns:hs=\"http://www.hancom.co.kr/hwpml/2011/section\" xmlns:hc=\"http://www.hancom.co.kr/hwpml/2011/core\" xmlns:hh=\"http://www.hancom.co.kr/hwpml/2011/head\" xmlns:hhs=\"http://www.hancom.co.kr/hwpml/2011/history\" xmlns:hm=\"http://www.hancom.co.kr/hwpml/2011/master-page\" xmlns:hpf=\"http://www.hancom.co.kr/schema/2011/hpf\" xmlns:dc=\"http://purl.org/dc/elements/1.1/\" xmlns:opf=\"http://www.idpf.org/2007/opf/\" xmlns:ooxmlchart=\"http://www.hancom.co.kr/hwpml/2016/ooxmlchart\" xmlns:hwpunitchar=\"http://www.hancom.co.kr/hwpml/2016/HwpUnitChar\" xmlns:epub=\"http://www.idpf.org/2007/ops\" xmlns:config=\"urn:oasis:names:tc:opendocument:xmlns:config:1.0\""
}

/// The text of `Contents/masterpage{idx}.xml` for `mp`, whose paragraphs are rendered as
/// `body`: the XML declaration, `<masterPage>` with its namespaces, id, type and
/// duplication flag, and an `<hp:subList>` with the text area and reference flags around
/// the body.
pub open spec fn master_page_xml(mp: MasterPage, idx: nat, body: Seq<char>) -> Seq<char> {
    "<?xml version=\"1.0\" encoding=\"UTF-8\" standalone=\"yes\" ?><masterPage"@
        + master_page_ns() + " id=\"masterpage"@ + decimal(idx) + "\" type=\""@ + page_type_name(
        mp.is_extension,
        mp.apply_to,
    ) + "\" pageNumber=\"0\" pageDuplicate=\""@ + (if mp.overlap {
        "1"@
    } else {
        "0"@
    })
        + "\" pageFront=\"0\"><hp:subList id=\"\" textDirection=\"HORIZONTAL\" lineWrap=\"BREAK\" vertAlign=\"TOP\" linkListIDRef=\"0\" linkListNextIDRef=\"0\" textWidth=\""@
        + decimal(mp.text_width as nat) + "\" textHeight=\""@ + decimal(mp.text_height as nat)
        + "\" hasTextRef=\""@ + decimal(mp.text_ref as nat) + "\" hasNumRef=\""@ + decimal(
        mp.num_ref as nat,
    ) + "\">"@ + body + "</hp:subList></masterPage>"@
}

/// Writes one master page as the UTF-8 bytes of `Contents/masterpage{global_idx}.xml`.
/// `global_idx` is unique over the whole document, as `content.hpf` and the section's
/// `idRef` name it; `body` is the master page's paragraphs already rendered as `<hp:p>`.
pub fn write_master_page(mp: &MasterPage, global_idx: usize, body: &str) -> (r: Result<
    Vec<u8>,
    SerializeError,
>)
    ensures
        r matches Ok(b) && b@ == encode_utf8(master_page_xml(*mp, global_idx as nat, body@)),
{
    let mut xml = String::new();
    push_str(&mut xml, "<?xml version=\"1.0\" encoding=\"UTF-8\" standalone=\"yes\" ?><masterPage");
    push_str(&mut xml, master_page_ns_str());
    push_str(&mut xml, " id=\"masterpage");
    push_decimal(&mut xml, global_idx as u64);
    push_str(&mut xml, "\" type=\"");
    push_str(&mut xml, master_page_type(mp));
    push_str(&mut xml, "\" pageNumber=\"0\" pageDuplicate=\"");
    let dup = if mp.overlap {
        "1"
    } else {
        "0"
    };
    push_str(&mut xml, dup);
    push_str(
        &mut xml,
        "\" pageFront=\"0\"><hp:subList id=\"\" textDirection=\"HORIZONTAL\" lineWrap=\"BREAK\" vertAlign=\"TOP\" linkListIDRef=\"0\" linkListNextIDRef=\"0\" textWidth=\"",
    );
    push_decimal(&mut xml, mp.text_width as u64);
    push_str(&mut xml, "\" textHeight=\"");
    push_decimal(&mut xml, mp.text_height as u64);
    push_str(&mut xml, "\" hasTextRef=\"");
    push_decimal(&mut xml, mp.text_ref as u64);
    push_str(&mut xml, "\" hasNumRef=\"");
    push_decimal(&mut xml, mp.num_ref as u64);
    push_str(&mut xml, "\">");
    push_str(&mut xml, body);
    push_str(&mut xml, "</hp:subList></masterPage>");
    assert(xml@ =~= master_page_xml(*mp, global_idx as nat, body@));
    let bytes = xml.as_str().as_bytes_vec();
    Ok(bytes)
}

// ---------------------------------------------------------------------------------------
// Reading the attributes of a master page document.

/// What `str::parse` gives for an unsigned integer type whose largest value is `max`: an
/// optional `+`, then one or more decimal digits whose value is at most `max`.
pub open spec fn parsed_uint(s: Seq<char>, max: nat) -> Option<nat> {
    let d = if s.len() > 0 && s[0] == '+' {
        s.drop_first()
    } else {
        s
    };
    if d.len() > 0 && all_digits(d) && digits_value(d) <= max {
        Some(digits_value(d))
    } else {
        None
    }
}

/// The value of an attribute read as an unsigned number, 0 where it is not one.
pub open spec fn uint_or_zero(s: Seq<char>, max: nat) -> nat {
    match parsed_uint(s, max) {
        Some(v) => v,
        None => 0,
    }
}

fn parse_uint_or_zero(s: &str, max: u64) -> (r: u64)
    requires
        max <= u32::MAX,
    ensures
        r == uint_or_zero(s@, max as nat),
{
    let cs = chars_of(s);
    let start: usize = if cs.len() > 0 && cs[0] == '+' {
        1
    } else {
        0
    };
    let ghost d = if cs@.len() > 0 && cs@[0] == '+' {
        cs@.drop_first()
    } else {
        cs@
    };
    assert(d =~= cs@.skip(start as int));
    if start == cs.len() {
        return 0;
    }
    // `v` is the value of the digits read so far, or `max + 1` once that exceeds `max`.
    let mut v: u64 = 0;
    let mut i = start;
    while i < cs.len()
        invariant
            start <= i <= cs.len(),
            max <= u32::MAX,
            cs@ == s@,
            d == cs@.skip(start as int),
            d == (if cs@.len() > 0 && cs@[0] == '+' {
                cs@.drop_first()
            } else {
                cs@
            }),
            all_digits(cs@.subrange(start as int, i as int)),
            v as int == if digits_value(cs@.subrange(start as int, i as int)) > max {
                max + 1
            } else {
                digits_value(cs@.subrange(start as int, i as int)) as int
            },
        decreases cs.len() - i,
    {
        let c = cs[i];
        if !((c as u32) >= 0x30 && (c as u32) <= 0x39) {
            assert(d[i - start] == c);
            assert(!is_digit(d[i - start]));
            assert(!all_digits(d));
            return 0;
        }
        let dg = (c as u32 - 0x30) as u64;
        let ghost pre = cs@.subrange(start as int, i as int);
        let ghost nxt = cs@.subrange(start as int, i + 1);
        assert(nxt.drop_last() =~= pre);
        assert(nxt.last() == c);
        assert(digits_value(nxt) == 10 * digits_value(pre) + digit_val(c));
        if v > max {
            v = max + 1;
        } else {
            let w = 10 * v + dg;
            v = if w > max {
                max + 1
            } else {
                w
            };
        }
        i = i + 1;
        assert(all_digits(cs@.subrange(start as int, i as int))) by {
            assert forall|k: int| 0 <= k < nxt.len() implies is_digit(#[trigger] nxt[k]) by {
                if k < pre.len() {
                    assert(nxt[k] == pre[k]);
                }
            }
        }
    }
    assert(cs@.subrange(start as int, cs@.len() as int) =~= d);
    if v > max {
        0
    } else {
        v
    }
}

/// `parse::<u8>()` of an attribute value, 0 when it does not parse.
pub fn parse_u8(value: &str) -> (r: u8)
    ensures
        r == uint_or_zero(value@, u8::MAX as nat),
{
    parse_uint_or_zero(value, 255) as u8
}

/// `parse::<u32>()` of an attribute value, 0 when it does not parse.
pub fn parse_u32(value: &str) -> (r: u32)
    ensures
        r == uint_or_zero(value@, u32::MAX as nat),
{
    parse_uint_or_zero(value, 0xffff_ffff) as u32
}

/// One attribute of `<masterPage>`: `type` sets the pages it applies to (`ODD`, `EVEN`,
/// `BOTH`; any other type marks an extension master page that applies to both), and
/// `pageDuplicate="1"` marks it as overlapping, which also sets bit 0 of the extension
/// flags. Other attributes change nothing.
pub open spec fn with_master_page_attr(mp: MasterPage, key: Seq<char>, value: Seq<char>) -> MasterPage {
    if key == "type"@ {
        if value == "ODD"@ {
            MasterPage { apply_to: HeaderFooterApply::Odd, ..mp }
        } else if value == "EVEN"@ {
            MasterPage { apply_to: HeaderFooterApply::Even, ..mp }
        } else if value == "BOTH"@ {
            MasterPage { apply_to: HeaderFooterApply::Both, ..mp }
        } else {
            MasterPage { apply_to: HeaderFooterApply::Both, is_extension: true, ..mp }
        }
    } else if key == "pageDuplicate"@ {
        let overlap = uint_or_zero(value, u8::MAX as nat) == 1;
        MasterPage {
            overlap,
            ext_flags: if overlap {
                mp.ext_flags | 1u16
            } else {
                mp.ext_flags
            },
            ..mp
        }
    } else {
        mp
    }
}

/// The attributes applied one after another, in the order they are written.
pub open spec fn with_master_page_attrs(mp: MasterPage, attrs: Seq<(Seq<char>, Seq<char>)>) -> MasterPage
    decreases attrs.len(),
{
    if attrs.len() == 0 {
        mp
    } else {
        with_master_page_attrs(with_master_page_attr(mp, attrs[0].0, attrs[0].1), attrs.drop_first())
    }
}

/// The (name, value) pairs as character sequences.
pub open spec fn attr_views(attrs: Seq<(String, String)>) -> Seq<(Seq<char>, Seq<char>)> {
    attrs.map_values(|a: (String, String)| (a.0@, a.1@))
}

fn apply_master_page_attr(mp: &mut MasterPage, key: &str, value: &str)
    ensures
        *final(mp) == with_master_page_attr(*old(mp), key@, value@),
{
    if str_eq(key, "type") {
        if str_eq(value, "ODD") {
            mp.apply_to = HeaderFooterApply::Odd;
        } else if str_eq(value, "EVEN") {
            mp.apply_to = HeaderFooterApply::Even;
        } else if str_eq(value, "BOTH") {
            mp.apply_to = HeaderFooterApply::Both;
        } else {
            mp.apply_to = HeaderFooterApply::Both;
            mp.is_extension = true;
        }
    } else if str_eq(key, "pageDuplicate") {
        mp.overlap = parse_u8(value) == 1;
        if mp.overlap {
            mp.ext_flags = mp.ext_flags | 0x01;
        }
    }
}

/// Sets `mp` from the attributes of a `<masterPage>` element, given as (name, value) pairs
/// in the order they are written.
pub fn parse_master_page_attrs(attrs: &Vec<(String, String)>, mp: &mut MasterPage)
    ensures
        *final(mp) == with_master_page_attrs(*old(mp), attr_views(attrs@)),
{
    let mut i: usize = 0;
    assert(attr_views(attrs@).skip(0) =~= attr_views(attrs@));
    while i < attrs.len()
        invariant
            i <= attrs.len(),
            with_master_page_attrs(*mp, attr_views(attrs@).skip(i as int)) == with_master_page_attrs(
                *old(mp),
                attr_views(attrs@),
            ),
        decreases attrs.len() - i,
    {
        assert(attr_views(attrs@).skip(i as int).drop_first() =~= attr_views(attrs@).skip(i + 1));
        assert(attr_views(attrs@).skip(i as int)[0] == (attrs@[i as int].0@, attrs@[i as int].1@));
        apply_master_page_attr(mp, attrs[i].0.as_str(), attrs[i].1.as_str());
        i = i + 1;
    }
}

/// One attribute of `<hp:subList>`: `textWidth` and `textHeight` (numbers, 0 when they do
/// not parse), `hasTextRef` and `hasNumRef` (bytes, likewise). Others change nothing.
pub open spec fn with_sub_list_attr(mp: MasterPage, key: Seq<char>, value: Seq<char>) -> MasterPage {
    if key == "textWidth"@ {
        MasterPage { text_width: uint_or_zero(value, u32::MAX as nat) as u32, ..mp }
    } else if key == "textHeight"@ {
        MasterPage { text_height: uint_or_zero(value, u32::MAX as nat) as u32, ..mp }
    } else if key == "hasTextRef"@ {
        MasterPage { text_ref: uint_or_zero(value, u8::MAX as nat) as u8, ..mp }
    } else if key == "hasNumRef"@ {
        MasterPage { num_ref: uint_or_zero(value, u8::MAX as nat) as u8, ..mp }
    } else {
        mp
    }
}

pub open spec fn with_sub_list_attrs(mp: MasterPage, attrs: Seq<(Seq<char>, Seq<char>)>) -> MasterPage
    decreases attrs.len(),
{
    if attrs.len() == 0 {
        mp
    } else {
        with_sub_list_attrs(with_sub_list_attr(mp, attrs[0].0, attrs[0].1), attrs.drop_first())
    }
}

fn apply_sub_list_attr(mp: &mut MasterPage, key: &str, value: &str)
    ensures
        *final(mp) == with_sub_list_attr(*old(mp), key@, value@),
{
    if str_eq(key, "textWidth") {
        mp.text_width = parse_u32(value);
    } else if str_eq(key, "textHeight") {
        mp.text_height = parse_u32(value);
    } else if str_eq(key, "hasTextRef") {
        mp.text_ref = parse_u8(value);
    } else if str_eq(key, "hasNumRef") {
        mp.num_ref = parse_u8(value);
    }
}

/// Sets `mp` from the attributes of an `<hp:subList>` element, given as (name, value)
/// pairs in the order they are written.
pub fn parse_sub_list_attrs(attrs: &Vec<(String, String)>, mp: &mut MasterPage)
    ensures
        *final(mp) == with_sub_list_attrs(*old(mp), attr_views(attrs@)),
{
    let mut i: usize = 0;
    assert(attr_views(attrs@).skip(0) =~= attr_views(attrs@));
    while i < attrs.len()
        invariant
            i <= attrs.len(),
            with_sub_list_attrs(*mp, attr_views(attrs@).skip(i as int)) == with_sub_list_attrs(
                *old(mp),
                attr_views(attrs@),
            ),
        decreases attrs.len() - i,
    {
        assert(attr_views(attrs@).skip(i as int).drop_first() =~= attr_views(attrs@).skip(i + 1));
        assert(attr_views(attrs@).skip(i as int)[0] == (attrs@[i as int].0@, attrs@[i as int].1@));
        apply_sub_list_attr(mp, attrs[i].0.as_str(), attrs[i].1.as_str());
        i = i + 1;
    }
}

// ---------------------------------------------------------------------------------------
// What is written reads back.

/// The attributes of `<masterPage>` in the document written for `mp` as master page `idx`.
pub open spec fn written_master_page_attrs(mp: MasterPage, idx: nat) -> Seq<(Seq<char>, Seq<char>)> {
    seq![
        ("id"@, "masterpage"@ + decimal(idx)),
        ("type"@, page_type_name(mp.is_extension, mp.apply_to)),
        ("pageNumber"@, "0"@),
        ("pageDuplicate"@, if mp.overlap { "1"@ } else { "0"@ }),
        ("pageFront"@, "0"@),
    ]
}

/// The attributes of `<hp:subList>` in the document written for `mp`.
pub open spec fn written_sub_list_attrs(mp: MasterPage) -> Seq<(Seq<char>, Seq<char>)> {
    seq![
        ("id"@, ""@),
        ("textDirection"@, "HORIZONTAL"@),
        ("lineWrap"@, "BREAK"@),
        ("vertAlign"@, "TOP"@),
        ("linkListIDRef"@, "0"@),
        ("linkListNextIDRef"@, "0"@),
        ("textWidth"@, decimal(mp.text_width as nat)),
        ("textHeight"@, decimal(mp.text_height as nat)),
        ("hasTextRef"@, decimal(mp.text_ref as nat)),
        ("hasNumRef"@, decimal(mp.num_ref as nat)),
    ]
}

proof fn lemma_decimal_parses(n: nat, max: nat)
    requires
        n <= max,
    ensures
        parsed_uint(decimal(n), max) == Some(n),
{
    lemma_decimal_digits(n);
    assert(decimal(n)[0] != '+') by {
        assert(is_digit(decimal(n)[0]));
    }
}

proof fn lemma_decimal_digits(n: nat)
    ensures
        decimal(n).len() > 0,
        all_digits(decimal(n)),
        digits_value(decimal(n)) == n,
    decreases n,
{
    let d = decimal(n);
    if n < 10 {
        assert(d.drop_last() =~= Seq::<char>::empty());
        assert(digits_value(Seq::<char>::empty()) == 0);
    } else {
        lemma_decimal_digits(n / 10);
        assert(d.drop_last() =~= decimal(n / 10));
        assert forall|k: int| 0 <= k < d.len() implies is_digit(#[trigger] d[k]) by {
            if k < d.len() - 1 {
                assert(d[k] == decimal(n / 10)[k]);
            }
        }
    }
}

proof fn lemma_literals()
    ensures
        "id"@ =~= seq!['i', 'd'],
        "type"@ =~= seq!['t', 'y', 'p', 'e'],
        "pageNumber"@ =~= seq!['p', 'a', 'g', 'e', 'N', 'u', 'm', 'b', 'e', 'r'],
        "pageDuplicate"@ =~= seq!['p', 'a', 'g', 'e', 'D', 'u', 'p', 'l', 'i', 'c', 'a', 't', 'e'],
        "pageFront"@ =~= seq!['p', 'a', 'g', 'e', 'F', 'r', 'o', 'n', 't'],
        "textDirection"@ =~= seq!['t', 'e', 'x', 't', 'D', 'i', 'r', 'e', 'c', 't', 'i', 'o', 'n'],
        "lineWrap"@ =~= seq!['l', 'i', 'n', 'e', 'W', 'r', 'a', 'p'],
        "vertAlign"@ =~= seq!['v', 'e', 'r', 't', 'A', 'l', 'i', 'g', 'n'],
        "linkListIDRef"@ =~= seq!['l', 'i', 'n', 'k', 'L', 'i', 's', 't', 'I', 'D', 'R', 'e', 'f'],
        "linkListNextIDRef"@ =~= seq!['l', 'i', 'n', 'k', 'L', 'i', 's', 't', 'N', 'e', 'x', 't', 'I', 'D', 'R', 'e', 'f'],
        "textWidth"@ =~= seq!['t', 'e', 'x', 't', 'W', 'i', 'd', 't', 'h'],
        "textHeight"@ =~= seq!['t', 'e', 'x', 't', 'H', 'e', 'i', 'g', 'h', 't'],
        "hasTextRef"@ =~= seq!['h', 'a', 's', 'T', 'e', 'x', 't', 'R', 'e', 'f'],
        "hasNumRef"@ =~= seq!['h', 'a', 's', 'N', 'u', 'm', 'R', 'e', 'f'],
        "LAST_PAGE"@ =~= seq!['L', 'A', 'S', 'T', '_', 'P', 'A', 'G', 'E'],
        "BOTH"@ =~= seq!['B', 'O', 'T', 'H'],
        "EVEN"@ =~= seq!['E', 'V', 'E', 'N'],
        "ODD"@ =~= seq!['O', 'D', 'D'],
        "0"@ =~= seq!['0'],
        "1"@ =~= seq!['1'],
{
    reveal_strlit("id");
    reveal_strlit("type");
    reveal_strlit("pageNumber");
    reveal_strlit("pageDuplicate");
    reveal_strlit("pageFront");
    reveal_strlit("textDirection");
    reveal_strlit("lineWrap");
    reveal_strlit("vertAlign");
    reveal_strlit("linkListIDRef");
    reveal_strlit("linkListNextIDRef");
    reveal_strlit("textWidth");
    reveal_strlit("textHeight");
    reveal_strlit("hasTextRef");
    reveal_strlit("hasNumRef");
    reveal_strlit("LAST_PAGE");
    reveal_strlit("BOTH");
    reveal_strlit("EVEN");
    reveal_strlit("ODD");
    reveal_strlit("0");
    reveal_strlit("1");
}

/// A `type` attribute other than `ODD`, `EVEN` and `BOTH` (`LAST_PAGE`, `OPTIONAL_PAGE`,
/// any other) marks an extension master page that applies to both kinds of page; the three
/// page kinds set the pages it applies to and leave the extension mark as it was. Nothing
/// else of the master page changes.
pub proof fn law_master_page_type_attr(mp: MasterPage, value: Seq<char>)
    ensures
        ({
            let r = with_master_page_attr(mp, "type"@, value);
            &&& value != "ODD"@ && value != "EVEN"@ && value != "BOTH"@ ==> r.is_extension
                && r.apply_to == HeaderFooterApply::Both
            &&& value == "ODD"@ ==> r.apply_to == HeaderFooterApply::Odd && r.is_extension
                == mp.is_extension
            &&& value == "EVEN"@ ==> r.apply_to == HeaderFooterApply::Even && r.is_extension
                == mp.is_extension
            &&& value == "BOTH"@ ==> r.apply_to == HeaderFooterApply::Both && r.is_extension
                == mp.is_extension
            &&& r.overlap == mp.overlap && r.ext_flags == mp.ext_flags && r.text_width
                == mp.text_width && r.text_height == mp.text_height && r.text_ref == mp.text_ref
                && r.num_ref == mp.num_ref && r.paragraphs == mp.paragraphs
        }),
{
    lemma_literals();
    assert("EVEN"@ != "ODD"@) by {
        assert("EVEN"@[0] != "ODD"@[0]);
    }
    assert("BOTH"@ != "ODD"@) by {
        assert("BOTH"@[0] != "ODD"@[0]);
    }
    assert("BOTH"@ != "EVEN"@) by {
        assert("BOTH"@[0] != "EVEN"@[0]);
    }
}

proof fn lemma_no_type_attr_keeps_kind(mp: MasterPage, attrs: Seq<(Seq<char>, Seq<char>)>)
    requires
        forall|j: int| 0 <= j < attrs.len() ==> (#[trigger] attrs[j]).0 != "type"@,
    ensures
        with_master_page_attrs(mp, attrs).is_extension == mp.is_extension,
        with_master_page_attrs(mp, attrs).apply_to == mp.apply_to,
    decreases attrs.len(),
{
    if attrs.len() > 0 {
        assert(attrs[0].0 != "type"@);
        let m1 = with_master_page_attr(mp, attrs[0].0, attrs[0].1);
        assert forall|j: int| 0 <= j < attrs.drop_first().len() implies (
        #[trigger] attrs.drop_first()[j]).0 != "type"@ by {
            assert(attrs.drop_first()[j] == attrs[j + 1]);
        }
        lemma_no_type_attr_keeps_kind(m1, attrs.drop_first());
    }
}

/// Reading the attributes of a `<masterPage>` whose last `type` attribute is not `ODD`,
/// `EVEN` or `BOTH` gives an extension master page that applies to both kinds of page,
/// whatever other attributes stand before or after it.
pub proof fn law_unknown_type_reads_as_extension(
    mp: MasterPage,
    attrs: Seq<(Seq<char>, Seq<char>)>,
    k: int,
)
    requires
        0 <= k < attrs.len(),
        attrs[k].0 == "type"@,
        attrs[k].1 != "ODD"@ && attrs[k].1 != "EVEN"@ && attrs[k].1 != "BOTH"@,
        forall|j: int| k < j < attrs.len() ==> (#[trigger] attrs[j]).0 != "type"@,
    ensures
        with_master_page_attrs(mp, attrs).is_extension,
        with_master_page_attrs(mp, attrs).apply_to == HeaderFooterApply::Both,
    decreases attrs.len(),
{
    let m1 = with_master_page_attr(mp, attrs[0].0, attrs[0].1);
    let rest = attrs.drop_first();
    if k == 0 {
        law_master_page_type_attr(mp, attrs[0].1);
        assert forall|j: int| 0 <= j < rest.len() implies (#[trigger] rest[j]).0 != "type"@ by {
            assert(rest[j] == attrs[j + 1]);
        }
        lemma_no_type_attr_keeps_kind(m1, rest);
    } else {
        assert(rest[k - 1] == attrs[k]);
        assert forall|j: int| k - 1 < j < rest.len() implies (#[trigger] rest[j]).0 != "type"@ by {
            assert(rest[j] == attrs[j + 1]);
        }
        law_unknown_type_reads_as_extension(m1, rest, k - 1);
    }
}

/// Reading the attributes that `write_master_page` writes for any master page gives back its
/// extension mark, overlap, text area and reference flags, and sets bit 0 of the extension
/// flags exactly when it overlaps; an ordinary master page reads back the pages it applies
/// to, an extension master page reads back as one that applies to both kinds of page.
pub proof fn law_master_page_attrs_read_back(mp: MasterPage, idx: nat, fresh: MasterPage)
    requires
        fresh.is_default(),
    ensures
        ({
            let r = with_sub_list_attrs(
                with_master_page_attrs(fresh, written_master_page_attrs(mp, idx)),
                written_sub_list_attrs(mp),
            );
            &&& r.apply_to == if mp.is_extension {
                HeaderFooterApply::Both
            } else {
                mp.apply_to
            }
            &&& r.is_extension == mp.is_extension
            &&& r.overlap == mp.overlap
            &&& r.ext_flags == (if mp.overlap { 1u16 } else { 0u16 })
            &&& r.text_width == mp.text_width
            &&& r.text_height == mp.text_height
            &&& r.text_ref == mp.text_ref
            &&& r.num_ref == mp.num_ref
        }),
{
    lemma_literals();
    let ma = written_master_page_attrs(mp, idx);
    let m0 = fresh;
    let m1 = with_master_page_attr(m0, ma[0].0, ma[0].1);
    let m2 = with_master_page_attr(m1, ma[1].0, ma[1].1);
    let m3 = with_master_page_attr(m2, ma[2].0, ma[2].1);
    let m4 = with_master_page_attr(m3, ma[3].0, ma[3].1);
    let m5 = with_master_page_attr(m4, ma[4].0, ma[4].1);
    assert(m1 == m0);
    assert(m3 == m2);
    assert(m5 == m4);
    assert(digits_value(seq!['1'].drop_last()) == 0);
    assert(digits_value(seq!['0'].drop_last()) == 0);
    assert(seq!['1'].drop_last() =~= Seq::<char>::empty());
    assert(seq!['0'].drop_last() =~= Seq::<char>::empty());
    assert(uint_or_zero(seq!['1'], 255) == 1);
    assert(uint_or_zero(seq!['0'], 255) == 0);
    assert(m2.apply_to == (if mp.is_extension {
        HeaderFooterApply::Both
    } else {
        mp.apply_to
    }) && m2.is_extension == mp.is_extension);
    assert((0u16 | 1u16) == 1u16) by (bit_vector);
    assert(m4.overlap == mp.overlap);
    assert(m4.ext_flags == (if mp.overlap { 1u16 } else { 0u16 }));
    assert(with_master_page_attrs(m0, ma) == m5) by {
        assert(ma.drop_first().drop_first().drop_first().drop_first().drop_first() =~= Seq::<
            (Seq<char>, Seq<char>),
        >::empty());
        assert(with_master_page_attrs(m0, ma) == with_master_page_attrs(m1, ma.drop_first()));
        assert(with_master_page_attrs(m1, ma.drop_first()) == with_master_page_attrs(
            m2,
            ma.drop_first().drop_first(),
        ));
        assert(with_master_page_attrs(m2, ma.drop_first().drop_first()) == with_master_page_attrs(
            m3,
            ma.drop_first().drop_first().drop_first(),
        ));
        assert(with_master_page_attrs(m3, ma.drop_first().drop_first().drop_first())
            == with_master_page_attrs(m4, ma.drop_first().drop_first().drop_first().drop_first()));
        assert(with_master_page_attrs(m4, ma.drop_first().drop_first().drop_first().drop_first())
            == with_master_page_attrs(
            m5,
            ma.drop_first().drop_first().drop_first().drop_first().drop_first(),
        ));
    }
    lemma_decimal_parses(mp.text_width as nat, u32::MAX as nat);
    lemma_decimal_parses(mp.text_height as nat, u32::MAX as nat);
    lemma_decimal_parses(mp.text_ref as nat, u8::MAX as nat);
    lemma_decimal_parses(mp.num_ref as nat, u8::MAX as nat);
    lemma_sub_list_read_back(m5, mp);
}

proof fn lemma_sub_list_read_back(m: MasterPage, mp: MasterPage)
    requires
        uint_or_zero(decimal(mp.text_width as nat), u32::MAX as nat) == mp.text_width,
        uint_or_zero(decimal(mp.text_height as nat), u32::MAX as nat) == mp.text_height,
        uint_or_zero(decimal(mp.text_ref as nat), u8::MAX as nat) == mp.text_ref,
        uint_or_zero(decimal(mp.num_ref as nat), u8::MAX as nat) == mp.num_ref,
    ensures
        ({
            let r = with_sub_list_attrs(m, written_sub_list_attrs(mp));
            &&& r.apply_to == m.apply_to
            &&& r.is_extension == m.is_extension
            &&& r.overlap == m.overlap
            &&& r.ext_flags == m.ext_flags
            &&& r.text_width == mp.text_width
            &&& r.text_height == mp.text_height
            &&& r.text_ref == mp.text_ref
            &&& r.num_ref == mp.num_ref
        }),
{
    lemma_literals();
    assert(written_sub_list_attrs(mp).skip(0) =~= written_sub_list_attrs(mp));
    lemma_sub_list_steps(m, m, mp, 0);
}

proof fn lemma_sub_list_steps(m: MasterPage, cur: MasterPage, mp: MasterPage, k: int)
    requires
        0 <= k <= 10,
        "id"@ != "textWidth"@ && "id"@ != "textHeight"@ && "id"@ != "hasTextRef"@ && "id"@ != "hasNumRef"@,
        "textDirection"@ != "textWidth"@ && "textDirection"@ != "textHeight"@,
        "textDirection"@ != "hasTextRef"@ && "textDirection"@ != "hasNumRef"@,
        "lineWrap"@ != "textWidth"@ && "lineWrap"@ != "textHeight"@,
        "lineWrap"@ != "hasTextRef"@ && "lineWrap"@ != "hasNumRef"@,
        "vertAlign"@ != "textWidth"@ && "vertAlign"@ != "textHeight"@,
        "vertAlign"@ != "hasTextRef"@ && "vertAlign"@ != "hasNumRef"@,
        "linkListIDRef"@ != "textWidth"@ && "linkListIDRef"@ != "textHeight"@,
        "linkListIDRef"@ != "hasTextRef"@ && "linkListIDRef"@ != "hasNumRef"@,
        "linkListNextIDRef"@ != "textWidth"@ && "linkListNextIDRef"@ != "textHeight"@,
        "linkListNextIDRef"@ != "hasTextRef"@ && "linkListNextIDRef"@ != "hasNumRef"@,
        "textHeight"@ != "textWidth"@,
        "hasTextRef"@ != "textWidth"@ && "hasTextRef"@ != "textHeight"@,
        "hasNumRef"@ != "textWidth"@ && "hasNumRef"@ != "textHeight"@ && "hasNumRef"@ != "hasTextRef"@,
        cur.apply_to == m.apply_to,
        cur.is_extension == m.is_extension,
        cur.overlap == m.overlap,
        cur.ext_flags == m.ext_flags,
        k > 6 ==> cur.text_width == mp.text_width,
        k > 7 ==> cur.text_height == mp.text_height,
        k > 8 ==> cur.text_ref == mp.text_ref,
        k > 9 ==> cur.num_ref == mp.num_ref,
        uint_or_zero(decimal(mp.text_width as nat), u32::MAX as nat) == mp.text_width,
        uint_or_zero(decimal(mp.text_height as nat), u32::MAX as nat) == mp.text_height,
        uint_or_zero(decimal(mp.text_ref as nat), u8::MAX as nat) == mp.text_ref,
        uint_or_zero(decimal(mp.num_ref as nat), u8::MAX as nat) == mp.num_ref,
    ensures
        ({
            let r = with_sub_list_attrs(cur, written_sub_list_attrs(mp).skip(k));
            &&& r.apply_to == m.apply_to
            &&& r.is_extension == m.is_extension
            &&& r.overlap == m.overlap
            &&& r.ext_flags == m.ext_flags
            &&& r.text_width == mp.text_width
            &&& r.text_height == mp.text_height
            &&& r.text_ref == mp.text_ref
            &&& r.num_ref == mp.num_ref
        }),
    decreases 10 - k,
{
    let sa = written_sub_list_attrs(mp);
    if k == 10 {
        assert(sa.skip(10) =~= Seq::<(Seq<char>, Seq<char>)>::empty());
    } else {
        assert(sa.skip(k).drop_first() =~= sa.skip(k + 1));
        assert(sa.skip(k)[0] == sa[k]);
        lemma_sub_list_steps(m, with_sub_list_attr(cur, sa[k].0, sa[k].1), mp, k + 1);
    }
}

// ---------------------------------------------------------------------------------------
// Reading a master-page document, one XML event at a time.

/// An XML event of a master-page document as the reader needs it: the local name of a
/// start, empty or end tag, with the attributes of a start or empty tag as (name, value)
/// pairs; the end of the input; a reading error with its message; anything else.
pub enum MasterPageXmlEvent {
    Start { local: String, attrs: Vec<(String, String)> },
    Empty { local: String, attrs: Vec<(String, String)> },
    End { local: String },
    Eof,
    Error(String),
    Other,
}

/// The master page read so far, and whether the reader is inside its `<hp:subList>`.
pub struct MasterPageReader {
    pub mp: MasterPage,
    pub in_sub_list: bool,
}

/// What the reader asks for after an event: the next event, the paragraph that starts at
/// this `<hp:p>` (read by the section parser and appended to the master page's paragraphs),
/// or nothing more, the master page being read.
#[derive(Clone, Copy, Debug, PartialEq, Eq, Structural)]
pub enum MasterPageReadStep {
    Continue,
    ReadParagraph,
    Done,
}

/// What one event does to the reader `a`, leaving it `b`, with the reply `r`.
/// Outside the sub-list: a `masterPage` start or empty tag applies its attributes; a
/// `subList` start applies its attributes and enters the sub-list; the end of the input
/// ends the reading; an error is reported with the prefix `masterpage: `.
/// Inside the sub-list: a `p` start asks for a paragraph; a `subList` end or the end of the
/// input leaves the sub-list; an error is reported with the prefix `masterpage subList: `.
/// Every other event changes nothing.
pub open spec fn read_step(
    a: MasterPageReader,
    ev: MasterPageXmlEvent,
    r: Result<MasterPageReadStep, HwpxError>,
    b: MasterPageReader,
) -> bool {
    if !a.in_sub_list {
        match ev {
            MasterPageXmlEvent::Start { local, attrs } => if local@ == "masterPage"@ {
                &&& r == Ok::<MasterPageReadStep, HwpxError>(MasterPageReadStep::Continue)
                &&& !b.in_sub_list
                &&& b.mp == with_master_page_attrs(a.mp, attr_views(attrs@))
            } else if local@ == "subList"@ {
                &&& r == Ok::<MasterPageReadStep, HwpxError>(MasterPageReadStep::Continue)
                &&& b.in_sub_list
                &&& b.mp == with_sub_list_attrs(a.mp, attr_views(attrs@))
            } else {
                r == Ok::<MasterPageReadStep, HwpxError>(MasterPageReadStep::Continue) && b == a
            },
            MasterPageXmlEvent::Empty { local, attrs } => if local@ == "masterPage"@ {
                &&& r == Ok::<MasterPageReadStep, HwpxError>(MasterPageReadStep::Continue)
                &&& !b.in_sub_list
                &&& b.mp == with_master_page_attrs(a.mp, attr_views(attrs@))
            } else {
                r == Ok::<MasterPageReadStep, HwpxError>(MasterPageReadStep::Continue) && b == a
            },
            MasterPageXmlEvent::Eof => r == Ok::<MasterPageReadStep, HwpxError>(
                MasterPageReadStep::Done,
            ) && b == a,
            MasterPageXmlEvent::Error(m) => b == a && (r matches Err(HwpxError::XmlError(e))
                && e@ == "masterpage: "@ + m@),
            _ => r == Ok::<MasterPageReadStep, HwpxError>(MasterPageReadStep::Continue) && b == a,
        }
    } else {
        match ev {
            MasterPageXmlEvent::Start { local, attrs } => if local@ == "p"@ {
                r == Ok::<MasterPageReadStep, HwpxError>(MasterPageReadStep::ReadParagraph) && b == a
            } else {
                r == Ok::<MasterPageReadStep, HwpxError>(MasterPageReadStep::Continue) && b == a
            },
            MasterPageXmlEvent::End { local } => if local@ == "subList"@ {
                &&& r == Ok::<MasterPageReadStep, HwpxError>(MasterPageReadStep::Continue)
                &&& !b.in_sub_list
                &&& b.mp == a.mp
            } else {
                r == Ok::<MasterPageReadStep, HwpxError>(MasterPageReadStep::Continue) && b == a
            },
            MasterPageXmlEvent::Eof => {
                &&& r == Ok::<MasterPageReadStep, HwpxError>(MasterPageReadStep::Continue)
                &&& !b.in_sub_list
                &&& b.mp == a.mp
            },
            MasterPageXmlEvent::Error(m) => b == a && (r matches Err(HwpxError::XmlError(e))
                && e@ == "masterpage subList: "@ + m@),
            _ => r == Ok::<MasterPageReadStep, HwpxError>(MasterPageReadStep::Continue) && b == a,
        }
    }
}

fn error_with_prefix(prefix: &str, m: &String) -> (e: HwpxError)
    ensures
        e matches HwpxError::XmlError(s) && s@ == prefix@ + m@,
{
    let mut s = string_of(prefix);
    push_str(&mut s, m.as_str());
    HwpxError::XmlError(s)
}

/// Takes one event of a master-page document.
pub fn master_page_read_step(st: &mut MasterPageReader, ev: &MasterPageXmlEvent) -> (r: Result<
    MasterPageReadStep,
    HwpxError,
>)
    ensures
        read_step(*old(st), *ev, r, *final(st)),
{
    if !st.in_sub_list {
        match ev {
            MasterPageXmlEvent::Start { local, attrs } => {
                if str_eq(local.as_str(), "masterPage") {
                    parse_master_page_attrs(attrs, &mut st.mp);
                } else if str_eq(local.as_str(), "subList") {
                    parse_sub_list_attrs(attrs, &mut st.mp);
                    st.in_sub_list = true;
                }
                Ok(MasterPageReadStep::Continue)
            },
            MasterPageXmlEvent::Empty { local, attrs } => {
                if str_eq(local.as_str(), "masterPage") {
                    parse_master_page_attrs(attrs, &mut st.mp);
                }
                Ok(MasterPageReadStep::Continue)
            },
            MasterPageXmlEvent::Eof => Ok(MasterPageReadStep::Done),
            MasterPageXmlEvent::Error(m) => Err(error_with_prefix("masterpage: ", m)),
            _ => Ok(MasterPageReadStep::Continue),
        }
    } else {
        match ev {
            MasterPageXmlEvent::Start { local, attrs: _ } => {
                if str_eq(local.as_str(), "p") {
                    Ok(MasterPageReadStep::ReadParagraph)
                } else {
                    Ok(MasterPageReadStep::Continue)
                }
            },
            MasterPageXmlEvent::End { local } => {
                if str_eq(local.as_str(), "subList") {
                    st.in_sub_list = false;
                }
                Ok(MasterPageReadStep::Continue)
            },
            MasterPageXmlEvent::Eof => {
                st.in_sub_list = false;
                Ok(MasterPageReadStep::Continue)
            },
            MasterPageXmlEvent::Error(m) => Err(error_with_prefix("masterpage subList: ", m)),
            _ => Ok(MasterPageReadStep::Continue),
        }
    }
}

} // verus!
