use bmg_dump::bmg_message::{MessageAttributes, MessageParser, MessageSingleLang, Tag, TextPart};
use bmg_dump::bmg_text_parser::{parse_hex_chars, BMGTextParser};

fn chars(s: &str) -> Vec<char> {
    s.chars().collect()
}

fn text_of(part: &TextPart) -> Option<String> {
    match part {
        TextPart::Text(s) => Some(s.clone()),
        TextPart::Tag(_) => None,
    }
}

fn tag_of(part: &TextPart) -> Option<(u8, u16, Vec<u8>)> {
    match part {
        TextPart::Text(_) => None,
        TextPart::Tag(t) => Some((t.group, t.number, t.payload.clone())),
    }
}

#[test]
fn hex_numbers_are_read_with_a_bound() {
    assert_eq!(parse_hex_chars(&chars("1A"), 0xFF), Some(0x1A));
    assert_eq!(parse_hex_chars(&chars("+ff"), 0xFF), Some(0xFF));
    assert_eq!(parse_hex_chars(&chars("100"), 0xFF), None);
    assert_eq!(parse_hex_chars(&chars(""), 0xFF), None);
    assert_eq!(parse_hex_chars(&chars("+"), 0xFF), None);
    assert_eq!(parse_hex_chars(&chars("-1"), 0xFF), None);
    assert_eq!(parse_hex_chars(&chars("12g"), 0xFFFF), None);
}

#[test]
fn attributes_are_padded_to_sixteen_bytes() {
    let a = MessageAttributes::parse_text("");
    assert_eq!(a.payload, vec![0u8; 16]);
    let b = MessageAttributes::parse_text("1,2,3");
    let mut expected = vec![1u8, 2, 3];
    expected.resize(16, 0);
    assert_eq!(b.payload, expected);
}

#[test]
fn attribute_slash_aligns_to_four_bytes() {
    let a = MessageAttributes::parse_text("1,2/3");
    let mut expected = vec![1u8, 2, 0, 0, 3];
    expected.resize(16, 0);
    assert_eq!(a.payload, expected);
    let b = MessageAttributes::parse_text("1,2,3,4/5");
    let mut expected = vec![1u8, 2, 3, 4, 0, 0, 0, 0, 5];
    expected.resize(16, 0);
    assert_eq!(b.payload, expected);
}

#[test]
fn attribute_that_is_no_byte_reads_as_zero() {
    let a = MessageAttributes::parse_text("zz,10,,100");
    let mut expected = vec![0u8, 0x10, 0, 0];
    expected.resize(16, 0);
    assert_eq!(a.payload, expected);
}

#[test]
fn long_attributes_are_cut_to_sixteen_bytes() {
    let a = MessageAttributes::parse_text("1,2,3,4,5,6,7,8,9,a,b,c,d,e,f,10,11,12");
    assert_eq!(a.payload, (1u8..=16).collect::<Vec<u8>>());
}

#[test]
fn x_tag_escape_is_read() {
    let t = Tag::parse_text("\\x{1A,08FF,0000,0102}").unwrap().unwrap();
    assert_eq!(t.group, 0xFF);
    assert_eq!(t.number, 0);
    assert_eq!(t.payload, vec![1, 2]);
}

#[test]
fn tag_payload_is_cut_to_the_declared_size() {
    // size 8: (8 / 2) * 2 - 5 = 3 bytes of payload
    let t = Tag::parse_text("\\x{0,0803,0012,0102,0304}").unwrap().unwrap();
    assert_eq!(t.group, 0x03);
    assert_eq!(t.number, 0x12);
    assert_eq!(t.payload, vec![1, 2, 3]);
}

#[test]
fn tag_arguments_that_are_no_number_are_skipped() {
    let t = Tag::parse_text("\\x{0,0A05,0001,zz,0102,0304}").unwrap().unwrap();
    assert_eq!(t.group, 0x05);
    assert_eq!(t.number, 1);
    assert_eq!(t.payload, vec![1, 2, 3, 4, ]);
}

#[test]
fn tag_errors() {
    assert_eq!(Tag::parse_text("plain").unwrap().err(), Some("Couldn't capture data"));
    assert_eq!(Tag::parse_text("\\z{1,0800,0}").unwrap().err(), Some("Z escapes not implemented yet"));
    assert_eq!(Tag::parse_text("a\\x{1,0800,0}").unwrap().err(), Some("Z escapes not implemented yet"));
}

#[test]
fn tag_failures() {
    // a declared size under 6, too few arguments, or a number that is no number
    assert!(Tag::parse_text("\\x{1,0500,0}").is_none());
    assert!(Tag::parse_text("\\x{1}").is_none());
    assert!(Tag::parse_text("\\x{1,0800}").is_none());
    assert!(Tag::parse_text("\\x{1,0800,zz}").is_none());
}

#[test]
fn line_errors() {
    assert_eq!(MessageSingleLang::parse_text("").unwrap().err(), Some("Line is empty"));
    assert_eq!(MessageSingleLang::parse_text("hello").unwrap().err(), Some("Ill formed string"));
    assert_eq!(MessageSingleLang::parse_text("1 [] = a").unwrap().err(), Some("Ill formed string"));
    assert_eq!(MessageSingleLang::parse_text("0 [00] = x").unwrap().err(), Some("Invalid ID"));
    assert_eq!(
        MessageSingleLang::parse_text("10000000000000000 [00] = x").unwrap().err(),
        Some("Invalid ID")
    );
}

#[test]
fn line_with_text_and_escaped_line_break() {
    let m = MessageSingleLang::parse_text("1A [00,01] = Hello\\nWorld").unwrap().unwrap();
    assert_eq!(m.id, 0x1A);
    let mut attribs = vec![0u8, 1];
    attribs.resize(16, 0);
    assert_eq!(m.attribs.payload, attribs);
    assert_eq!(m.text.len(), 1);
    assert_eq!(text_of(&m.text[0]), Some("Hello\nWorld".to_string()));
}

#[test]
fn line_with_slot_and_tag() {
    let m = MessageSingleLang::parse_text("5 @0001 [01] = A\\x{1A,08FF,0000,0102}B").unwrap().unwrap();
    assert_eq!(m.id, 5);
    assert_eq!(m.attribs.payload[0], 1);
    assert_eq!(m.text.len(), 3);
    assert_eq!(text_of(&m.text[0]), Some("A".to_string()));
    assert_eq!(tag_of(&m.text[1]), Some((0xFF, 0, vec![1, 2])));
    assert_eq!(text_of(&m.text[2]), Some("B".to_string()));
}

#[test]
fn line_found_after_leading_text() {
    let m = MessageSingleLang::parse_text("xx 12 [0] = hi").unwrap().unwrap();
    assert_eq!(m.id, 0x12);
    assert_eq!(text_of(&m.text[0]), Some("hi".to_string()));
}

#[test]
fn line_without_text_has_no_parts() {
    let m = MessageSingleLang::parse_text("5 [01] = ").unwrap().unwrap();
    assert_eq!(m.id, 5);
    assert!(m.text.is_empty());
}

#[test]
fn attributes_close_at_the_last_bracket() {
    let m = MessageSingleLang::parse_text("7 [a] = x] = y").unwrap().unwrap();
    assert_eq!(m.attribs.payload, vec![0u8; 16]);
    assert_eq!(m.text.len(), 1);
    assert_eq!(text_of(&m.text[0]), Some("y".to_string()));
}

#[test]
fn unsupported_escape_is_dropped_from_the_text() {
    let m = MessageSingleLang::parse_text("3 [0] = a\\z{1}b").unwrap().unwrap();
    assert_eq!(m.text.len(), 2);
    assert_eq!(text_of(&m.text[0]), Some("a".to_string()));
    assert_eq!(text_of(&m.text[1]), Some("b".to_string()));
}

#[test]
fn tag_at_both_ends_leaves_empty_texts() {
    let m = MessageSingleLang::parse_text("3 [0] = \\x{0,0600,1}").unwrap().unwrap();
    assert_eq!(m.text.len(), 3);
    assert_eq!(text_of(&m.text[0]), Some(String::new()));
    assert_eq!(tag_of(&m.text[1]), Some((0, 1, vec![])));
    assert_eq!(text_of(&m.text[2]), Some(String::new()));
}

#[test]
fn line_with_failing_tag_fails() {
    assert!(MessageSingleLang::parse_text("3 [0] = \\x{0,0100,1}").is_none());
}

#[test]
fn file_skips_header_lines_and_bad_lines() {
    let lines: Vec<String> = vec![
        "header".to_string(),
        "junk line".to_string(),
        "1 [0] = a".to_string(),
        "bad line".to_string(),
        "0 [0] = zero".to_string(),
        "2 [0] = b".to_string(),
    ];
    let p = BMGTextParser::from_lines(&lines).unwrap();
    let msgs = p.get_all_messages();
    assert_eq!(msgs.len(), 2);
    assert_eq!(msgs[0].id, 1);
    assert_eq!(text_of(&msgs[0].text[0]), Some("a".to_string()));
    assert_eq!(msgs[1].id, 2);
    assert_eq!(text_of(&msgs[1].text[0]), Some("b".to_string()));
    for m in &msgs {
        assert!(m.id > 0);
        assert_eq!(m.attribs.payload.len(), 16);
    }
}

#[test]
fn file_without_message_lines_is_empty() {
    let lines: Vec<String> = vec!["a".to_string(), "b".to_string()];
    let p = BMGTextParser::from_lines(&lines).unwrap();
    assert!(p.get_all_messages().is_empty());
}

#[test]
fn file_with_failing_line_fails() {
    let lines: Vec<String> = vec!["1 [0] = \\x{0,0100,1}".to_string()];
    assert!(BMGTextParser::from_lines(&lines).is_none());
}
