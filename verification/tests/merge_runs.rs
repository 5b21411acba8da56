use rhwp::svg_runs::merge_ascii_text_runs;

const MYUNGJO: &str = "-윤명조130,&apos;Noto Serif CJK KR&apos;,serif";
const NOTO: &str = "Noto Sans CJK KR,&apos;Malgun Gothic&apos;,sans-serif";
const BATANG: &str = "바탕,&apos;Noto Serif CJK KR&apos;,serif";

fn tf_text(x: f64, y: f64, s: &str, family: &str, extra: &str, c: &str) -> String {
    format!(
        "<text transform=\"translate({x},{y}) scale({s},1)\" font-family=\"{family}\" font-size=\"20\"{extra} fill=\"#000000\">{c}</text>",
    )
}

fn xy_text(x: f64, y: f64, family: &str, size: &str, extra: &str, c: &str) -> String {
    format!(
        "<text x=\"{x}\" y=\"{y}\" font-family=\"{family}\" font-size=\"{size}\"{extra} fill=\"#000000\">{c}</text>",
    )
}

#[test]
fn merges_scene_marker_preserving_scale() {
    let svg = [
        tf_text(255.24, 190.86, "0.9500", MYUNGJO, "", "S"),
        tf_text(263.18, 190.86, "0.9500", MYUNGJO, "", "#"),
        tf_text(271.13, 190.86, "0.9500", MYUNGJO, "", "1"),
        tf_text(279.08, 190.86, "0.9500", MYUNGJO, "", "."),
    ]
    .join("\n");
    let out = merge_ascii_text_runs(&svg);
    assert_eq!(out.matches("<text").count(), 1, "should merge into one text: {out}");
    assert!(out.contains(">S#1.</text>"), "payload merged: {out}");
    assert!(out.contains("scale(0.9500,1)"), "scale preserved: {out}");
    assert!(out.contains("translate(255.24,190.86)"), "first_x preserved: {out}");
}

#[test]
fn merges_page_header() {
    let svg = [
        tf_text(100.0, 50.0, "0.9500", NOTO, " font-weight=\"bold\"", "P"),
        tf_text(108.0, 50.0, "0.9500", NOTO, " font-weight=\"bold\"", "A"),
        tf_text(116.0, 50.0, "0.9500", NOTO, " font-weight=\"bold\"", "G"),
        tf_text(124.0, 50.0, "0.9500", NOTO, " font-weight=\"bold\"", "E"),
    ]
    .join("\n");
    let out = merge_ascii_text_runs(&svg);
    assert_eq!(out.matches("<text").count(), 1, "{out}");
    assert!(out.contains(">PAGE</text>"), "{out}");
}

#[test]
fn page_number_digit_never_merges_away() {
    let dash_style = " font-weight=\"bold\"";
    let svg = [
        tf_text(439.0, 87.44, "2.0000", BATANG, dash_style, "-"),
        xy_text(481.0, 87.44, MYUNGJO, "20", "", "2"),
        tf_text(509.6, 87.44, "2.0000", BATANG, dash_style, "-"),
    ]
    .join("\n");
    let out = merge_ascii_text_runs(&svg);
    assert_eq!(out.matches("<text").count(), 3, "no merge across styles: {out}");
    assert!(out.contains(">2</text>"), "digit survives: {out}");
    assert_eq!(out.matches(">-</text>").count(), 2, "both dashes survive: {out}");
    assert!(out.contains("x=\"481\" y=\"87.44\""), "digit form preserved: {out}");
}

#[test]
fn different_font_does_not_merge() {
    let svg = [
        tf_text(10.0, 20.0, "0.9500", MYUNGJO, "", "A"),
        tf_text(18.0, 20.0, "0.9500", NOTO, "", "B"),
    ]
    .join("\n");
    let out = merge_ascii_text_runs(&svg);
    assert_eq!(out.matches("<text").count(), 2, "{out}");
}

#[test]
fn preserves_g_wrapper_and_breaks_on_close() {
    let line1 = format!(
        "<g clip-path=\"url(#cell-clip-1)\">{}",
        tf_text(10.0, 20.0, "0.9500", NOTO, "", "S"),
    );
    let line2 = tf_text(18.0, 20.0, "0.9500", NOTO, "", "#");
    let svg = [line1, line2, "</g>".to_string()].join("\n");
    let out = merge_ascii_text_runs(&svg);
    assert!(out.contains("<g clip-path=\"url(#cell-clip-1)\"><text"), "g wrapper kept: {out}");
    assert!(out.contains(">S#</text>"), "merged inside cell: {out}");
    assert!(out.contains("</g>"), "close tag preserved: {out}");
}

#[test]
fn memo_keeps_center_anchor() {
    let svg = [
        xy_text(100.0, 50.0, NOTO, "24", "", "M"),
        xy_text(115.0, 50.0, NOTO, "24", "", "E"),
        xy_text(130.0, 50.0, NOTO, "24", "", "M"),
        xy_text(145.0, 50.0, NOTO, "24", "", "O"),
    ]
    .join("\n");
    let out = merge_ascii_text_runs(&svg);
    assert!(out.contains(">MEMO</text>"), "{out}");
    assert!(out.contains("text-anchor=\"middle\""), "center anchor applied: {out}");
}

#[test]
fn korean_body_untouched() {
    let svg = [
        tf_text(10.0, 20.0, "0.9500", MYUNGJO, "", "아"),
        tf_text(28.0, 20.0, "0.9500", MYUNGJO, "", "파"),
    ]
    .join("\n");
    let out = merge_ascii_text_runs(&svg);
    assert_eq!(out.matches("<text").count(), 2, "{out}");
    assert!(out.contains(">아</text>") && out.contains(">파</text>"), "{out}");
}

// ---- further cases

#[test]
fn merged_run_is_written_exactly() {
    let svg = [
        tf_text(255.24, 190.86, "0.9500", MYUNGJO, "", "S"),
        tf_text(263.18, 190.86, "0.9500", MYUNGJO, "", "#"),
    ]
    .join("\n");
    let out = merge_ascii_text_runs(&svg);
    assert_eq!(
        out,
        format!(
            "<text transform=\"translate(255.24,190.86) scale(0.9500,1)\" font-family=\"{MYUNGJO}\" font-size=\"20\" fill=\"#000000\">S#</text>\n"
        )
    );
}

#[test]
fn memo_is_centred_on_its_glyphs() {
    // (first + 2 * last) / 3 = (100 + 290) / 3 = 130
    let svg = [
        xy_text(100.0, 50.0, NOTO, "24", "", "M"),
        xy_text(115.0, 50.0, NOTO, "24", "", "E"),
        xy_text(130.0, 50.0, NOTO, "24", "", "M"),
        xy_text(145.0, 50.0, NOTO, "24", "", "O"),
    ]
    .join("\n");
    let out = merge_ascii_text_runs(&svg);
    assert!(out.starts_with("<text x=\"130\" y=\"50\" "), "{out}");
}

#[test]
fn small_memo_is_not_centred() {
    let svg = [
        xy_text(100.0, 50.0, NOTO, "16", "", "M"),
        xy_text(110.0, 50.0, NOTO, "16", "", "E"),
        xy_text(120.0, 50.0, NOTO, "16", "", "M"),
        xy_text(130.0, 50.0, NOTO, "16", "", "O"),
    ]
    .join("\n");
    let out = merge_ascii_text_runs(&svg);
    assert!(out.contains(">MEMO</text>"), "{out}");
    assert!(!out.contains("text-anchor"), "{out}");
    assert!(out.starts_with("<text x=\"100\" y=\"50\" "), "{out}");
}

#[test]
fn plain_lines_pass_through() {
    let svg = "<svg>\r\n<rect x=\"1\"/>\n</svg>";
    let out = merge_ascii_text_runs(svg);
    assert_eq!(out, "<svg>\n<rect x=\"1\"/>\n</svg>\n");
}

#[test]
fn empty_svg_stays_empty() {
    assert_eq!(merge_ascii_text_runs(""), "");
}

#[test]
fn length_attributes_are_dropped_from_merged_runs() {
    let a = "<text x=\"10\" y=\"20\" font-family=\"-윤고딕130\" font-size=\"20\" textLength=\"8\" lengthAdjust=\"spacingAndGlyphs\">S</text>";
    let b = "<text x=\"18\" y=\"20\" font-family=\"-윤고딕130\" font-size=\"20\" textLength=\"9\" lengthAdjust=\"spacingAndGlyphs\">#</text>";
    let out = merge_ascii_text_runs(&format!("{a}\n{b}"));
    assert_eq!(
        out,
        "<text x=\"10\" y=\"20\" font-family=\"-윤고딕130\" font-size=\"20\">S#</text>\n"
    );
}

#[test]
fn tspan_lines_are_not_merged() {
    let a = "<text x=\"10\" y=\"20\" font-family=\"-윤고딕130\"><tspan>S</tspan></text>";
    let out = merge_ascii_text_runs(a);
    assert_eq!(out, format!("{a}\n"));
}

#[test]
fn exponent_coordinates_are_read() {
    let a = "<text x=\"1.5e2\" y=\"20\" font-family=\"-윤고딕130\" font-size=\"20\">S</text>";
    let b = "<text x=\"1.58E+2\" y=\"20\" font-family=\"-윤고딕130\" font-size=\"20\">#</text>";
    let out = merge_ascii_text_runs(&format!("{a}\n{b}"));
    assert_eq!(
        out,
        "<text x=\"150\" y=\"20\" font-family=\"-윤고딕130\" font-size=\"20\">S#</text>\n"
    );
}

#[test]
fn small_exponent_and_leading_zeros() {
    let a = "<text x=\"-25e-3\" y=\"20\" font-family=\"-윤고딕130\" font-size=\"20\">A</text>";
    let b = "<text x=\"1\" y=\"20\" font-family=\"-윤고딕130\" font-size=\"20\">B</text>";
    let out = merge_ascii_text_runs(&format!("{a}\n{b}"));
    assert!(out.starts_with("<text x=\"-0.025\" y=\"20\" "), "{out}");
    let c = "<text x=\"000000000000000012.5\" y=\"20\" font-family=\"-윤고딕130\" font-size=\"20\">C</text>";
    let out = merge_ascii_text_runs(&format!("{c}\n{b}"));
    assert!(out.starts_with("<text x=\"12.5\" y=\"20\" "), "{out}");
    assert!(out.contains(">CB</text>"), "{out}");
}

#[test]
fn exponent_font_size_centres_memo() {
    let line = |x: &str, c: &str| {
        format!("<text x=\"{x}\" y=\"50\" font-family=\"{NOTO}\" font-size=\"2.4e1\" fill=\"#000000\">{c}</text>")
    };
    let svg = [line("100", "M"), line("115", "E"), line("130", "M"), line("145", "O")].join("\n");
    let out = merge_ascii_text_runs(&svg);
    assert!(out.starts_with("<text x=\"130\" y=\"50\" "), "{out}");
}

#[test]
fn malformed_exponent_is_not_merged() {
    let a = "<text x=\"1e\" y=\"20\" font-family=\"-윤고딕130\" font-size=\"20\">S</text>";
    let out = merge_ascii_text_runs(a);
    assert_eq!(out, format!("{a}\n"));
}
