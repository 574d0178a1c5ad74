use bmg_dump::bmg_export::{
    csv_header, csv_row, file_kind, html_headers, html_row, import_jobs, index_html, try_row_style, FileKind,
    HTML_FOOT, INDEX_FOOT, INDEX_HEAD,
};
use bmg_dump::bmg_message::{Message, MessageAttributes, MessageSingleLang, Tag, TextPart};
use bmg_dump::bmg_parser::BMGParser;
use bmg_dump::formatting::{fmt_decimal, get_raw_msg, replace_newlines};
use bmg_dump::game_configs::{all_configs, default_color_hex, ph, tp, tww};

fn tag(group: u8, number: u16, payload: Vec<u8>) -> TextPart {
    TextPart::Tag(Tag { group, number, payload })
}

fn txt(s: &str) -> TextPart {
    TextPart::Text(s.to_string())
}

fn msg(parts: Vec<TextPart>, attribs: Vec<u8>) -> Message {
    Message { text: vec![parts], attribs: MessageAttributes { payload: attribs }, id: 1 }
}

#[test]
fn decimal_numbers() {
    assert_eq!(fmt_decimal(0), "0");
    assert_eq!(fmt_decimal(7), "7");
    assert_eq!(fmt_decimal(1234), "1234");
    assert_eq!(fmt_decimal(u64::MAX), "18446744073709551615");
}

#[test]
fn line_breaks_become_br() {
    assert_eq!(replace_newlines("a\nb\n"), "a<br>b<br>");
    assert_eq!(replace_newlines("none"), "none");
}

#[test]
fn tag_texts_of_each_game() {
    let c = tww();
    assert_eq!(c.get_tag_replacement(&Tag { group: 0, number: 0x0A, payload: vec![] }), "[A] ");
    assert_eq!(c.get_tag_replacement(&Tag { group: 0, number: 0x4B, payload: vec![] }), "");
    assert_eq!(c.get_tag_replacement(&Tag { group: 1, number: 0, payload: vec![] }), "");
    let t = tp();
    assert_eq!(t.get_tag_replacement(&Tag { group: 3, number: 0x12, payload: vec![] }), "[Fairy]");
    assert_eq!(t.get_tag_replacement(&Tag { group: 5, number: 3, payload: vec![0] }), "[ReturnedBugs]");
    assert_eq!(t.get_tag_replacement(&Tag { group: 5, number: 3, payload: vec![1] }), "[RemainingBugs]");
    assert_eq!(t.get_tag_replacement(&Tag { group: 5, number: 0x0C, payload: vec![2] }), "[HighScore]");
    assert_eq!(ph().get_tag_replacement(&Tag { group: 0, number: 9, payload: vec![] }), "[Tag]");
    let none = Tag { group: 0, number: 0, payload: vec![] };
    assert_eq!(none.get_simple_replacement(None), "[Tag]");
    assert_eq!(none.get_simple_replacement(Some(&c)), "[Link]");
}

#[test]
fn listing_texts_of_tags() {
    assert_eq!(Tag { group: 0xFF, number: 0, payload: vec![] }.display_text(), "[Color]");
    assert_eq!(Tag { group: 0xFF, number: 1, payload: vec![] }.display_text(), "[Size]");
    assert_eq!(Tag { group: 0xFF, number: 2, payload: vec![] }.display_text(), "[Ruby]");
    assert_eq!(Tag { group: 0xFF, number: 3, payload: vec![] }.display_text(), "");
    assert_eq!(Tag { group: 0x01, number: 3, payload: vec![] }.display_text(), "[Tag]");
    let m = msg(vec![txt("A"), tag(0xFF, 0, vec![1]), txt("B")], vec![]);
    assert_eq!(m.display_texts(), vec!["A[Color]B".to_string()]);
}

#[test]
fn raw_text_replaces_tags() {
    let parts = vec![txt("Press "), tag(0, 0x0A, vec![]), txt("!")];
    assert_eq!(get_raw_msg(&parts, Some(&tww())), "Press [A] !");
    assert_eq!(get_raw_msg(&parts, None), "Press [Tag]!");
    let m = msg(parts, vec![]);
    assert_eq!(m.get_raw(0, Some(&tww())), "Press [A] !");
    assert_eq!(m.get_raw(3, Some(&tww())), "");
}

#[test]
fn html_ignoring_tags_is_raw_text_with_br() {
    let m = msg(vec![txt("a\nb"), tag(0, 0x0A, vec![])], vec![]);
    assert_eq!(m.get_html_formatted(0, true, Some(&tww())), "a<br>b[A] ");
}

#[test]
fn html_colors() {
    let m = msg(vec![txt("A"), tag(0xFF, 0, vec![3]), txt("B"), tag(0xFF, 0, vec![0]), txt("C")], vec![]);
    assert_eq!(m.get_html_formatted(0, false, Some(&tww())), "A<span style='color:#7878ff;'>B</span>C");
    assert_eq!(m.get_html_formatted(0, false, None), "A<span style='color:#a0b4dc;'>B</span>C");
}

#[test]
fn html_sizes() {
    let m = msg(vec![tag(0xFF, 1, vec![0x00, 0x96]), txt("big"), tag(0xFF, 1, vec![0x00, 0x64]), txt("n")], vec![]);
    assert_eq!(m.get_html_formatted(0, false, Some(&tww())), "<span style='font-size:150%;'>big</span>n");
    let le = msg(vec![tag(0xFF, 1, vec![0x96, 0x00]), txt("x")], vec![]);
    assert_eq!(le.get_html_formatted(0, false, Some(&ph())), "<span style='font-size:150%;'>x");
}

#[test]
fn html_ruby() {
    // Shift-JIS 0x82 0xA0 is "あ"
    let m = msg(vec![tag(0xFF, 2, vec![2, 0x82, 0xA0]), txt("漢字です")], vec![]);
    assert_eq!(
        m.get_html_formatted(0, false, Some(&tp())),
        "<ruby>漢字<rp>(</rp><rt>あ</rt><rp>)</rp></ruby>です"
    );
}

#[test]
fn html_other_tags_and_missing_language() {
    let m = msg(vec![tag(0, 0x0A, vec![]), txt("x\ny")], vec![]);
    assert_eq!(m.get_html_formatted(0, false, Some(&tww())), "[A] x<br>y");
    assert_eq!(m.get_html_formatted(1, false, Some(&tww())), "");
}

#[test]
fn spreadsheet_runs() {
    let m = msg(vec![txt("A"), tag(0xFF, 0, vec![3]), txt("B"), tag(0, 0x0A, vec![]), txt("")], vec![]);
    let segs = m.get_xlsx_formatted(0, false, Some(&tww()));
    let texts: Vec<String> = segs.iter().map(|s| s.text.clone()).collect();
    assert_eq!(texts, vec!["A".to_string(), "B".to_string(), "[A] ".to_string()]);
    assert_eq!(segs[0].color, None);
    assert_eq!(segs[1].color, Some("#7878ff"));
    assert_eq!(segs[0].size_percent, 100);
    let plain = m.get_xlsx_formatted(0, true, Some(&tww()));
    assert_eq!(plain.len(), 1);
    assert_eq!(plain[0].text, "AB[A] ");
}

#[test]
fn game_tables() {
    let c = tww();
    assert_eq!(c.id, "tww");
    assert_eq!(c.get_languages().len(), 4);
    assert_eq!(c.get_languages()[1], ("uk", "UK English"));
    assert_eq!(c.get_filenames(), vec!["zel_00.bmg"]);
    assert_eq!(c.get_color_hex(1), "#ff6400");
    assert_eq!(tp().get_filenames().len(), 10);
    assert_eq!(tp().get_filenames()[9], "zel_99.bmg");
    assert_eq!(ph().get_languages(), vec![("jp", "Japanese")]);
    assert_eq!(default_color_hex(3), "#a0b4dc");
    let all = all_configs();
    let ids: Vec<&str> = all.iter().map(|c| c.id).collect();
    assert_eq!(ids, vec!["tp", "tww", "ph"]);
}

#[test]
fn message_styles() {
    let mut a = vec![0u8; 16];
    a[8] = 2;
    let s = tww().get_message_style(&MessageAttributes { payload: a.clone() });
    assert_eq!((s.centered, s.color.as_str(), s.bg_color.as_str(), s.style_id.as_str()), (false, "#000000", "#A68752", "display-2"));
    a[8] = 0x0D;
    let s = tww().get_message_style(&MessageAttributes { payload: a.clone() });
    assert!(s.centered);
    assert_eq!(s.style_id, "display-13");
    let mut b = vec![0u8; 16];
    b[5] = 0x13;
    let s = tp().get_message_style(&MessageAttributes { payload: b });
    assert!(s.centered && s.alt_font);
    let s = ph().get_message_style(&MessageAttributes { payload: vec![] });
    assert!(!s.centered && s.color.is_empty() && s.style_id.is_empty());
    assert!(try_row_style(&msg(vec![], vec![0; 4]), Some(&tww())).is_none());
}

#[test]
fn html_rows() {
    let mut a = vec![0u8; 16];
    a[8] = 0x0D;
    let m = Message { text: vec![vec![txt("hi")]], attribs: MessageAttributes { payload: a }, id: 1 };
    assert_eq!(
        html_row(&m, false, Some(&tww())),
        "<tr style='text-align: center; ' class=\"display-13\"><td>hi</td>\n<td></td>\n<td></td>\n<td></td>\n</tr>"
    );
    assert_eq!(html_headers(None), "<thead>\n    <tr>\n    </tr>\n  </thead>\n  <tbody>");
}

#[test]
fn csv_lines() {
    let c = tww();
    assert_eq!(csv_header(Some(&c)), "Japanese;UK English;French;German;\n");
    let m = Message { text: vec![vec![txt("a")], vec![], vec![txt("b")]], attribs: MessageAttributes { payload: vec![] }, id: 1 };
    assert_eq!(csv_row(&m, Some(&c)), "\"a\";\"\";\"b\";\"\";\n");
}

#[test]
fn csv_export_lists_messages_with_text() {
    let mut p = BMGParser::new();
    let one = MessageSingleLang { text: vec![txt("x")], attribs: MessageAttributes { payload: vec![] }, id: 2 };
    p.add_message(&one, 0, 0);
    let c = ph();
    let csv = p.export_csv_text(&c).unwrap();
    assert_eq!(csv, "Japanese;\n\"x\";\n");
    let html = p.export_html_text(false, &c).unwrap();
    assert!(html.ends_with(HTML_FOOT));
    assert!(html.contains("<tr ><td>x</td>\n</tr>"));
}

#[test]
fn index_page_links_every_game() {
    let page = index_html(&all_configs());
    assert!(page.starts_with(INDEX_HEAD));
    assert!(page.ends_with(INDEX_FOOT));
    assert!(page.contains(&format!("<a href=\"tww.html\"><img src=\"{}\"/></a>", tww().logo)));
}

#[test]
fn files_to_import() {
    let jobs = import_jobs(&tww());
    assert_eq!(jobs.len(), 4);
    assert_eq!(jobs[2].folder, "./res/tww/French");
    assert_eq!(jobs[2].basename, "zel_00.bmg");
    assert_eq!((jobs[2].lang_idx, jobs[2].bank_id), (2, 0));
    let tp_jobs = import_jobs(&tp());
    assert_eq!(tp_jobs.len(), 40);
    assert_eq!(tp_jobs[13].folder, "./res/tp/US English");
    assert_eq!((tp_jobs[13].basename, tp_jobs[13].lang_idx, tp_jobs[13].bank_id), ("zel_03.bmg", 1, 3));
}

#[test]
fn file_kinds() {
    assert_eq!(file_kind(Some("txt")), Some(FileKind::Text));
    assert_eq!(file_kind(Some("bmg")), Some(FileKind::Binary));
    assert_eq!(file_kind(Some("md")), None);
    assert_eq!(file_kind(None), None);
}

#[test]
fn more_tag_texts() {
    let t = tp();
    let r = |g: u8, n: u16| t.get_tag_replacement(&Tag { group: g, number: n, payload: vec![0] });
    assert_eq!(r(4, 0), "巫");
    assert_eq!(r(4, 0x0D), "憑");
    assert_eq!(r(6, 2), "♂");
    assert_eq!(r(6, 0x0B), "\u{a0}");
    assert_eq!(r(0, 0x39), "♥ ");
    assert_eq!(r(0, 0x14), "🡄 ");
    assert_eq!(r(0, 0x3F), "[MaxLetterPage]");
    assert_eq!(r(5, 4), "noop");
    assert_eq!(r(7, 0), "");
    let w = tww();
    let s = |n: u16| w.get_tag_replacement(&Tag { group: 0, number: n, payload: vec![] });
    assert_eq!(s(0x17), "🡇 ");
    assert_eq!(s(0x4A), "[KnightsCrestSellSelector]");
    assert_eq!(s(0x20), "[CanonBalls]");
    assert_eq!(s(0x1E), "\u{a0}");
    let c = ph().get_color_hex(8);
    assert_eq!(c, "#ff8000");
    assert_eq!(tp().get_color_hex(0), "#FFFFFF");
}
