use rhwp::font_fallback::{apply_font_fallbacks, decode_xml_entities, is_narrow_overlap_punct, parse_font_family};
use rhwp::glyph_metrics::{lookup_glyph_advance, GlyphAdvance, NotoMetrics};
use rhwp::glyph_overlap::{apply_glyph_shifts, glyph_groups, parse_glyph_text_line, rewrite_glyph_text_x};
use rhwp::pdf_export::{pdf_page_plan, PagePlan};
use rhwp::svg_runs::{is_marker_font, strip_text_length_attrs};

const SERIF: &str = "-윤명조130,&apos;Noto Serif CJK KR&apos;,serif";

// ---- reading and rewriting glyph lines

#[test]
fn parse_transform_form() {
    let line = format!(
        "<text transform=\"translate(255.24,279.74) scale(0.9500,1)\" font-family=\"{SERIF}\" font-size=\"20\" fill=\"#000000\">S#11.</text>",
    );
    let e = parse_glyph_text_line(&line).expect("parsed");
    assert!(e.is_transform);
    assert!((e.x.parse::<f64>().unwrap() - 255.24).abs() < 1e-6);
    assert_eq!(e.y, "279.74");
    assert!((e.ratio.as_deref().unwrap().parse::<f64>().unwrap() - 0.95).abs() < 1e-6);
    assert!((e.font_size.as_deref().unwrap().parse::<f64>().unwrap() - 20.0).abs() < 1e-6);
    assert_eq!(e.payload, "S#11.");
    assert_eq!(e.font_family, SERIF);
}

#[test]
fn parse_xy_form_and_entities() {
    let line = "<text x=\"100.5\" y=\"50\" font-family=\"Noto Sans CJK KR,sans-serif\" font-size=\"16\">&apos;</text>";
    let e = parse_glyph_text_line(line).expect("parsed");
    assert!(!e.is_transform);
    assert!((e.x.parse::<f64>().unwrap() - 100.5).abs() < 1e-6);
    assert_eq!(e.y, "50");
    assert!(e.ratio.is_none());
    assert_eq!(e.payload, "'");
}

#[test]
fn rewrite_keeps_y_and_scale() {
    let line = "<text transform=\"translate(10,20) scale(0.9500,1)\" font-size=\"20\">.</text>";
    let out = rewrite_glyph_text_x(line, true, "33.5");
    assert!(out.contains("translate(33.5,20)"), "{out}");
    assert!(out.contains("scale(0.9500,1)"), "{out}");
    assert!(out.ends_with(">.</text>"), "{out}");

    let xy = "<text x=\"10\" y=\"20\" font-size=\"20\">.</text>";
    let out2 = rewrite_glyph_text_x(xy, false, "33.5");
    assert!(out2.contains("x=\"33.5\""), "{out2}");
    assert!(out2.contains("y=\"20\""), "{out2}");
}

#[test]
fn glyph_lines_that_are_not_read() {
    // blank text, a tspan, an unreadable x, no closing tag
    assert!(parse_glyph_text_line("<text x=\"1\" y=\"2\"> </text>").is_none());
    assert!(parse_glyph_text_line("<text x=\"1\" y=\"2\"><tspan>a</tspan></text>").is_none());
    assert!(parse_glyph_text_line("<text x=\"1px\" y=\"2\">a</text>").is_none());
    assert!(parse_glyph_text_line("<text x=\"1\" y=\"2\">a").is_none());
    assert!(parse_glyph_text_line("<rect x=\"1\"/>").is_none());
}

#[test]
fn glyph_numbers_in_float_syntax() {
    for x in ["1e3", "-.5", "+2.", "inf", "NaN", "1E-2"] {
        let line = format!("<text x=\"{x}\" y=\"2\">a</text>");
        let e = parse_glyph_text_line(&line).unwrap_or_else(|| panic!("{x} should read"));
        assert_eq!(e.x, x);
        assert!(e.x.parse::<f64>().is_ok());
    }
    for x in [".", "e5", "1.2.3", "--1", "1e", "0x10"] {
        let line = format!("<text x=\"{x}\" y=\"2\">a</text>");
        assert!(parse_glyph_text_line(&line).is_none(), "{x} should not read");
        assert!(x.parse::<f64>().is_err());
    }
}

#[test]
fn ratio_defaults_and_font_size_text() {
    let line = "<text transform=\"translate(10,20)\" font-size=\"18.5\">a</text>";
    let e = parse_glyph_text_line(line).unwrap();
    assert!(e.ratio.is_none());
    assert_eq!(e.font_size.as_deref(), Some("18.5"));
    assert_eq!(e.font_family, "");
    let line = "<text transform=\"translate(10,20) scale(0.8)\">a</text>";
    let e = parse_glyph_text_line(line).unwrap();
    assert_eq!(e.ratio.as_deref(), Some("0.8"));
    assert!(e.font_size.is_none());
}

#[test]
fn groups_follow_baselines() {
    let lines = [
        "<text x=\"1\" y=\"10\">a</text>",
        "<text x=\"2\" y=\"10\">b</text>",
        "<text x=\"3\" y=\"10\">c</text>",
        "<rect/>",
        "<text x=\"1\" y=\"10\">d</text>",
        "<text x=\"1\" y=\"20\">e</text>",
        "<text x=\"2\" y=\"20\">f</text>",
    ];
    let parsed: Vec<_> = lines.iter().map(|l| parse_glyph_text_line(l)).collect();
    let groups = glyph_groups(&parsed);
    assert_eq!(groups, vec![vec![0, 1, 2], vec![5, 6]]);
}

#[test]
fn shifts_rewrite_only_given_lines() {
    let svg = "<text x=\"1\" y=\"10\">a</text>\r\n<text x=\"2\" y=\"10\">b</text>\n<rect/>";
    let unchanged = apply_glyph_shifts(svg, &vec![None, None, None]);
    assert_eq!(unchanged, svg);
    let out = apply_glyph_shifts(svg, &vec![None, Some("7.25".to_string()), Some("9".to_string())]);
    assert_eq!(
        out,
        "<text x=\"1\" y=\"10\">a</text>\n<text x=\"7.25\" y=\"10\">b</text>\n<rect/>\n"
    );
}

// ---- fallbacks and attribute readers

#[test]
fn font_fallbacks_are_written() {
    let svg = "<text font-family=\"휴먼명조\">a</text><text font-family=\"-윤고딕140\">b</text><text font-family=\"-윤고딕130,serif\">c</text><text font-family=\"HCI Poppy\">d</text>";
    let out: String = apply_font_fallbacks(svg).into_iter().collect();
    assert_eq!(
        out,
        "<text font-family=\"휴먼명조, 바탕, serif\">a</text><text font-family=\"Noto Sans CJK KR,sans-serif\">b</text><text font-family=\"Noto Sans CJK KR,serif\">c</text><text font-family=\"HCI Poppy, 맑은 고딕, sans-serif\">d</text>"
    );
}

#[test]
fn entities_are_decoded() {
    assert_eq!(decode_xml_entities("a&amp;lt;b &quot;c&quot; &apos;"), "a&lt;b \"c\" '");
    assert_eq!(decode_xml_entities("plain"), "plain");
    assert_eq!(decode_xml_entities("&lt;&gt;&amp;"), "<>&");
}

#[test]
fn font_family_value() {
    assert_eq!(parse_font_family(" font-family=\"A, B\" x=\"1\"").as_deref(), Some("A, B"));
    assert_eq!(parse_font_family(" font-size=\"1\""), None);
    assert_eq!(parse_font_family(" font-family=\"open"), None);
}

#[test]
fn narrow_punctuation() {
    for c in ['.', ',', '…', '—', '–', '―', '·', '(', '`'] {
        assert!(is_narrow_overlap_punct(c), "{c}");
    }
    for c in ['a', '가', '1', ' ', '#'] {
        assert!(!is_narrow_overlap_punct(c), "{c}");
    }
}

#[test]
fn marker_fonts_and_length_attributes() {
    assert!(is_marker_font(" font-family=\"Noto Sans CJK KR,serif\""));
    assert!(is_marker_font(" font-family=\"-윤명조150\""));
    assert!(!is_marker_font(" font-family=\"바탕\""));
    assert!(!is_marker_font(" font-size=\"2\""));
    assert_eq!(
        strip_text_length_attrs("font-size=\"20\" textLength=\"8.1\" lengthAdjust=\"spacing\" fill=\"#000\"   "),
        "font-size=\"20\"  fill=\"#000\""
    );
}

#[test]
fn page_plans() {
    match pdf_page_plan(0) {
        Err(m) => assert_eq!(m, "페이지가 없습니다"),
        Ok(_) => panic!("no pages must fail"),
    }
    assert_eq!(pdf_page_plan(1).unwrap(), PagePlan::Single);
    assert_eq!(pdf_page_plan(3).unwrap(), PagePlan::Multi);
}

// ---- glyph advances read from font bytes

fn be16(v: u16) -> [u8; 2] {
    v.to_be_bytes()
}

/// A minimal TrueType font: glyph 0 `.notdef`, then one glyph per character from 'A' on,
/// with the given advances (the first for `.notdef`).
fn tiny_font(upm: u16, advances: &[u16]) -> Vec<u8> {
    let n = advances.len() as u16;
    let mut cmap = Vec::new();
    cmap.extend(be16(0));
    cmap.extend(be16(1));
    cmap.extend(be16(3));
    cmap.extend(be16(1));
    cmap.extend(12u32.to_be_bytes());
    cmap.extend(be16(6));
    cmap.extend(be16(10 + 2 * (n - 1)));
    cmap.extend(be16(0));
    cmap.extend(be16(0x41));
    cmap.extend(be16(n - 1));
    for g in 1..n {
        cmap.extend(be16(g));
    }
    let mut head = vec![0u8; 54];
    head[0..4].copy_from_slice(&0x0001_0000u32.to_be_bytes());
    head[12..16].copy_from_slice(&0x5F0F_3CF5u32.to_be_bytes());
    head[18..20].copy_from_slice(&be16(upm));
    let mut hhea = vec![0u8; 36];
    hhea[0..4].copy_from_slice(&0x0001_0000u32.to_be_bytes());
    hhea[34..36].copy_from_slice(&be16(n));
    let mut hmtx = Vec::new();
    for a in advances {
        hmtx.extend(be16(*a));
        hmtx.extend(be16(0));
    }
    let mut maxp = Vec::new();
    maxp.extend(0x0000_5000u32.to_be_bytes());
    maxp.extend(be16(n));
    let tables: [(&[u8; 4], Vec<u8>); 5] =
        [(b"cmap", cmap), (b"head", head), (b"hhea", hhea), (b"hmtx", hmtx), (b"maxp", maxp)];
    let mut out = Vec::new();
    out.extend(0x0001_0000u32.to_be_bytes());
    out.extend(be16(5));
    out.extend([0u8; 6]);
    let mut offset = 12 + 16 * 5;
    let mut body = Vec::new();
    for (tag, data) in &tables {
        out.extend(*tag);
        out.extend(0u32.to_be_bytes());
        out.extend((offset as u32).to_be_bytes());
        out.extend((data.len() as u32).to_be_bytes());
        body.extend(data);
        while body.len() % 4 != 0 {
            body.push(0);
        }
        offset = 12 + 16 * 5 + body.len();
    }
    out.extend(body);
    out
}

#[test]
fn advances_come_from_the_font() {
    let serif = tiny_font(1000, &[500, 600, 700]);
    let sans = tiny_font(2048, &[1000, 1100]);
    let fonts = NotoMetrics { serif: Some(serif.clone()), sans: Some(sans) };
    assert_eq!(
        lookup_glyph_advance("바탕", 'A', &fonts),
        Some(GlyphAdvance { advance: 600, units_per_em: 1000 })
    );
    assert_eq!(
        lookup_glyph_advance("Noto Serif CJK KR", 'B', &fonts),
        Some(GlyphAdvance { advance: 700, units_per_em: 1000 })
    );
    assert_eq!(
        lookup_glyph_advance("Noto Sans CJK KR", 'A', &fonts),
        Some(GlyphAdvance { advance: 1100, units_per_em: 2048 })
    );
    assert_eq!(lookup_glyph_advance("바탕", 'Z', &fonts), None);
    let only_serif = NotoMetrics { serif: Some(serif), sans: None };
    assert_eq!(
        lookup_glyph_advance("sans-serif", 'A', &only_serif),
        Some(GlyphAdvance { advance: 600, units_per_em: 1000 })
    );
    let broken = NotoMetrics { serif: Some(vec![1, 2, 3]), sans: None };
    assert_eq!(lookup_glyph_advance("바탕", 'A', &broken), None);
    let none = NotoMetrics { serif: None, sans: None };
    assert_eq!(lookup_glyph_advance("바탕", 'A', &none), None);
}
