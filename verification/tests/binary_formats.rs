use bmg_dump::bmg_message::{MessageParser, TextPart};
use bmg_dump::bmg_raw_parser::{get_idx, BMGParseError, BMGRawParser, BMGSectionData, ParseErrorKind, DAT1, INF1};
use bmg_dump::formatting::get_raw_msg;
use bmg_dump::inspect::{FlowLine, SectionSummary};
use bmg_dump::msbt_parser::{MSBTBlockData, MSBTParser};
use bmg_dump::text_codec::TextEncoding;
use bmg_dump::utils::{get_u16, get_u32, unpack_u16};

fn push_u16_le(v: &mut Vec<u8>, x: u16) {
    v.extend_from_slice(&x.to_le_bytes());
}

fn push_u32_le(v: &mut Vec<u8>, x: u32) {
    v.extend_from_slice(&x.to_le_bytes());
}

/// A little-endian BMG file: a header, then the given sections.
fn bmg_file(encoding: u8, sections: &[(&str, Vec<u8>)]) -> Vec<u8> {
    let mut f = Vec::new();
    f.extend_from_slice(b"MESGbmg1");
    push_u32_le(&mut f, 0);
    push_u32_le(&mut f, sections.len() as u32);
    f.push(encoding);
    f.resize(0x20, 0);
    for (name, body) in sections {
        f.extend_from_slice(name.as_bytes());
        push_u32_le(&mut f, (body.len() + 8) as u32);
        f.extend_from_slice(body);
    }
    let size = f.len() as u32;
    f[8..12].copy_from_slice(&size.to_le_bytes());
    f
}

fn inf1(entries: &[(u32, [u8; 4])]) -> Vec<u8> {
    let mut b = Vec::new();
    push_u16_le(&mut b, entries.len() as u16);
    push_u16_le(&mut b, 8);
    push_u32_le(&mut b, 0);
    for (offset, attrs) in entries {
        push_u32_le(&mut b, *offset);
        b.extend_from_slice(attrs);
    }
    b
}

fn dat1() -> Vec<u8> {
    vec![0x00, b'H', b'i', 0x00, 0x00, 0x00, b'A', 0x1A, 0x06, 0xFF, 0x00, 0x00, 0x03, b'B', 0x00]
}

fn sample() -> Vec<u8> {
    bmg_file(1, &[("INF1", inf1(&[(1, [1, 2, 3, 4]), (6, [0, 0, 0, 0])])), ("DAT1", dat1())])
}

#[test]
fn numbers_are_read_big_endian() {
    let d = [0x12u8, 0x34, 0x56, 0x78, 0x9A];
    assert_eq!(get_u32(&d, 0), 0x12345678);
    assert_eq!(get_u32(&d, 1), 0x3456789A);
    assert_eq!(get_u16(&d, 3), 0x789A);
}

#[test]
fn unpack_splits_high_and_low_byte() {
    assert_eq!(unpack_u16(0x1234), (0x12, 0x34));
    assert_eq!(unpack_u16(0x00FF), (0x00, 0xFF));
    let (hi, lo) = unpack_u16(0xBEEF);
    assert_eq!(((hi as u16) << 8) | lo as u16, 0xBEEF);
}

#[test]
fn section_names_select_slots() {
    assert_eq!(get_idx("INF1"), Some(0));
    assert_eq!(get_idx("DAT1"), Some(1));
    assert_eq!(get_idx("MID1"), Some(2));
    assert_eq!(get_idx("STR1"), Some(3));
    assert_eq!(get_idx("FLW1"), Some(4));
    assert_eq!(get_idx("FLI1"), Some(5));
    assert_eq!(get_idx("ABCD"), None);
}

#[test]
fn header_is_read() {
    let data = sample();
    let p = BMGRawParser::try_new(data.clone(), false).unwrap();
    let h = p.get_header();
    assert_eq!(h.magic, "MESGbmg1");
    assert_eq!(h.filesize, data.len() as u32);
    assert_eq!(h.sections_cnt, 2);
    assert_eq!(h.encoding, 1);
    assert_eq!(p.get_encoding(), TextEncoding::Windows1252);
}

#[test]
fn sections_are_found_in_their_slots() {
    let p = BMGRawParser::try_new(sample(), false).unwrap();
    let sections = p.get_sections();
    assert_eq!(sections.len(), 6);
    let s0 = sections[INF1].as_ref().unwrap();
    assert_eq!(s0.section_type, "INF1");
    assert_eq!(s0.size, 32);
    assert_eq!((s0.range_start, s0.range_end), (0x28, 0x40));
    match p.get_section(INF1) {
        Some(BMGSectionData::INF1(d)) => {
            assert_eq!(d.count, 2);
            assert_eq!(d.entry_size, 8);
            assert_eq!(d.entries.len(), 2);
            assert_eq!(d.entries[1].offset, 6);
            assert_eq!(d.entries[0].attributes, vec![1, 2, 3, 4]);
        },
        _ => panic!("no INF1 section"),
    }
    match p.get_section(DAT1) {
        Some(BMGSectionData::DAT1(d)) => assert_eq!(d.data, dat1()),
        _ => panic!("no DAT1 section"),
    }
    assert!(sections[2].is_none());
}

#[test]
fn messages_are_read() {
    let p = BMGRawParser::try_new(sample(), false).unwrap();
    let m0 = p.try_get_msg(0).unwrap();
    assert_eq!(m0.id, 1);
    assert_eq!(m0.attribs.payload, vec![1, 2, 3, 4]);
    assert_eq!(m0.text.len(), 1);
    match &m0.text[0] {
        TextPart::Text(s) => assert_eq!(s, "Hi"),
        _ => panic!("expected text"),
    }
    let m1 = p.try_get_msg(1).unwrap();
    assert_eq!(m1.id, 2);
    assert_eq!(m1.text.len(), 3);
    match &m1.text[1] {
        TextPart::Tag(t) => {
            assert_eq!((t.group, t.number), (0xFF, 0));
            assert_eq!(t.payload, vec![3]);
        },
        _ => panic!("expected tag"),
    }
    assert_eq!(get_raw_msg(&m1.text, None), "A[Tag]B");
    assert!(p.try_get_msg(2).is_none());
}

#[test]
fn all_messages_are_the_messages_one_by_one() {
    let p = BMGRawParser::try_new(sample(), false).unwrap();
    let all = p.try_get_all_messages().unwrap();
    assert_eq!(all.len(), 2);
    for (i, m) in all.iter().enumerate() {
        let one = p.try_get_msg(i).unwrap();
        assert_eq!(m.id, one.id);
        assert_eq!(m.attribs.payload, one.attribs.payload);
        assert_eq!(get_raw_msg(&m.text, None), get_raw_msg(&one.text, None));
    }
}

#[test]
fn message_with_identifier_in_attributes() {
    let mut entry = vec![0u8; 0];
    push_u32_le(&mut entry, 1);
    entry.extend_from_slice(&[0x01, 0x23]);
    entry.resize(4 + 17, 0);
    let mut body = Vec::new();
    push_u16_le(&mut body, 1);
    push_u16_le(&mut body, entry.len() as u16);
    push_u32_le(&mut body, 0);
    body.extend_from_slice(&entry);
    let p = BMGRawParser::try_new(bmg_file(1, &[("INF1", body), ("DAT1", dat1())]), false).unwrap();
    let m = p.try_get_msg(0).unwrap();
    assert_eq!(m.id, 0x0123);
    assert_eq!(m.attribs.get_message_id(), Some(0x0123));
}

#[test]
fn utf16_messages_are_read() {
    let mut d = vec![0u8, 0];
    for c in "Ok".encode_utf16() {
        d.extend_from_slice(&c.to_le_bytes());
    }
    d.extend_from_slice(&[0, 0]);
    let p = BMGRawParser::try_new(bmg_file(2, &[("INF1", inf1(&[(2, [0; 4])])), ("DAT1", d)]), false).unwrap();
    assert_eq!(p.get_encoding(), TextEncoding::Utf16Le);
    let m = p.try_get_msg(0).unwrap();
    assert_eq!(get_raw_msg(&m.text, None), "Ok");
}

#[test]
fn file_too_short_for_a_header_fails() {
    assert!(BMGRawParser::try_new(vec![1, 2, 3], false).is_none());
}

#[test]
fn invalid_magic_gives_an_empty_file() {
    let mut data = sample();
    data[0] = 0xFF;
    let p = BMGRawParser::try_new(data, false).unwrap();
    assert_eq!(p.get_header().magic, "");
    assert_eq!(p.get_header().sections_cnt, 0);
    assert!(p.get_sections().iter().all(|s| s.is_none()));
    assert!(p.try_get_all_messages().unwrap().is_empty());
}

#[test]
fn str1_section_gives_an_empty_file() {
    let data = bmg_file(1, &[("STR1", vec![0; 8])]);
    let p = BMGRawParser::try_new(data, false).unwrap();
    assert!(p.get_sections().iter().all(|s| s.is_none()));
}

#[test]
fn parse_errors_have_kinds() {
    assert_eq!(BMGParseError::UnknownSectionID.kind(), ParseErrorKind::UnknownSectionID);
}

#[test]
fn report_needs_three_entries() {
    let p = BMGRawParser::try_new(sample(), false).unwrap();
    assert!(p.report().is_none());
}

#[test]
fn report_summarises_sections() {
    let data = bmg_file(
        1,
        &[("INF1", inf1(&[(1, [1, 2, 3, 4]), (6, [0; 4]), (0, [9; 4]), (1, [0; 4])])), ("DAT1", dat1())],
    );
    let p = BMGRawParser::try_new(data, false).unwrap();
    let r = p.report().unwrap();
    assert_eq!(r.len(), 2);
    assert_eq!(r[0].section_type, "INF1");
    match &r[0].summary {
        SectionSummary::INF1 { count, entry_size, entry_len, entries } => {
            assert_eq!((*count, *entry_size, *entry_len), (4, 8, 4));
            assert_eq!(entries.len(), 3);
            assert_eq!(entries[2].attributes, vec![9; 4]);
        },
        _ => panic!("expected INF1"),
    }
    match &r[1].summary {
        SectionSummary::DAT1 { data_len, head, messages } => {
            assert_eq!(*data_len, 15);
            assert_eq!(head, &dat1()[0..10].to_vec());
            let m = messages.as_ref().unwrap();
            assert_eq!(m.len(), 3);
            assert_eq!(get_raw_msg(&m[0], None), "Hi");
            assert_eq!(get_raw_msg(&m[1], None), "A[Tag]B");
            assert!(m[2].is_empty());
        },
        _ => panic!("expected DAT1"),
    }
}

fn flw1(nodes: &[[u8; 8]], indir: &[u16]) -> Vec<u8> {
    let mut b = Vec::new();
    push_u16_le(&mut b, nodes.len() as u16);
    push_u16_le(&mut b, indir.len() as u16);
    push_u32_le(&mut b, 0);
    for n in nodes {
        b.extend_from_slice(n);
    }
    for i in indir {
        push_u16_le(&mut b, *i);
    }
    b
}

#[test]
fn flow_chains_are_listed() {
    // node 0: message 0, then node 1; node 1: event 7 through indirection 0
    // (node 2); node 2: message 1, end; node 3: message 0, end.
    let nodes = [
        [1, 0, 0, 0, 1, 0, 0, 0],
        [3, 7, 0, 0, 0, 0, 0, 0],
        [1, 0, 1, 0, 0xFF, 0xFF, 0, 0],
        [1, 0, 0, 0, 0xFF, 0xFF, 0, 0],
    ];
    let data = bmg_file(
        1,
        &[
            ("INF1", inf1(&[(1, [0; 4]), (6, [0; 4])])),
            ("DAT1", dat1()),
            ("FLW1", flw1(&nodes, &[2, 0xFFFF])),
        ],
    );
    let p = BMGRawParser::try_new(data, false).unwrap();
    let lines = p.flow_report().unwrap();
    let shown: Vec<String> = lines
        .iter()
        .map(|l| match l {
            FlowLine::Separator => "--".to_string(),
            FlowLine::Message { inf1_idx, text } => format!("{inf1_idx}:{text}"),
            FlowLine::Branch => "branch".to_string(),
            FlowLine::Event { event_fn } => format!("event {event_fn}"),
        })
        .collect();
    assert_eq!(shown, vec!["--", "0:Hi", "event 7", "1:A[Tag]B", "--", "0:Hi"]);
}

#[test]
fn flow_cycle_never_ends() {
    let nodes = [[1, 0, 0, 0, 1, 0, 0, 0], [1, 0, 0, 0, 0, 0, 0, 0]];
    let data = bmg_file(1, &[("INF1", inf1(&[(1, [0; 4])])), ("DAT1", dat1()), ("FLW1", flw1(&nodes, &[]))]);
    let p = BMGRawParser::try_new(data, false).unwrap();
    assert!(p.flow_report().is_none());
}

#[test]
fn no_flow_graph_lists_nothing() {
    let p = BMGRawParser::try_new(sample(), false).unwrap();
    assert!(p.flow_report().unwrap().is_empty());
}

fn msbt_file(blocks: &[(&str, u32)]) -> Vec<u8> {
    let mut f = Vec::new();
    f.extend_from_slice(b"MsgStdBn");
    f.extend_from_slice(&[0xFF, 0xFE]);
    push_u16_le(&mut f, 0);
    f.push(1);
    f.push(3);
    push_u16_le(&mut f, blocks.len() as u16);
    push_u16_le(&mut f, 0);
    push_u32_le(&mut f, 0);
    f.resize(0x20, 0);
    for (name, size) in blocks {
        f.extend_from_slice(name.as_bytes());
        push_u32_le(&mut f, *size);
        f.resize(f.len() + 8, 0);
        f.resize(f.len() + *size as usize, 0xAB);
        let aligned = ((f.len() + 16) / 16) * 16;
        f.resize(aligned, 0);
    }
    f
}

#[test]
fn msbt_header_and_blocks_are_read() {
    let p = MSBTParser::try_new(msbt_file(&[("LBL1", 8), ("ATR1", 8)])).unwrap();
    let h = p.get_header();
    assert_eq!(h.magic, "MsgStdBn");
    assert!(!h.big_endian);
    assert_eq!((h.encoding, h.version, h.blocks_cnt), (1, 3, 2));
    assert!(matches!(p.get_block(0), Some(MSBTBlockData::LBL1)));
    assert!(p.get_block(1).is_none());
    assert!(matches!(p.get_block(2), Some(MSBTBlockData::ATR1)));
    let b = p.get_blocks()[0].as_ref().unwrap();
    assert_eq!((b.size, b.range_start, b.range_end), (8, 0x28, 0x30));
}

#[test]
fn msbt_unknown_block_gives_empty_contents() {
    let p = MSBTParser::try_new(msbt_file(&[("TSY1", 8)])).unwrap();
    assert!(p.get_blocks().iter().all(|b| b.is_none()));
    assert_eq!(p.get_header().blocks_cnt, 0);
}

#[test]
fn msbt_block_shorter_than_its_header_fails() {
    assert!(MSBTParser::try_new(msbt_file(&[("LBL1", 4)])).is_none());
}

#[test]
fn msbt_too_short_fails() {
    assert!(MSBTParser::try_new(vec![0; 5]).is_none());
}

fn mid1(ids: &[u32]) -> Vec<u8> {
    let mut b = Vec::new();
    push_u16_le(&mut b, ids.len() as u16);
    push_u16_le(&mut b, 0x1000);
    push_u32_le(&mut b, 0);
    for i in ids {
        push_u32_le(&mut b, *i);
    }
    b
}

fn fli1(entries: &[[u8; 8]]) -> Vec<u8> {
    let mut b = Vec::new();
    push_u16_le(&mut b, entries.len() as u16);
    push_u16_le(&mut b, 8);
    push_u32_le(&mut b, 0);
    for e in entries {
        b.extend_from_slice(e);
    }
    b
}

#[test]
fn identifiers_come_from_mid1() {
    let data = bmg_file(
        1,
        &[
            ("INF1", inf1(&[(1, [0; 4]), (6, [0; 4]), (0, [0; 4])])),
            ("DAT1", dat1()),
            ("MID1", mid1(&[0x100, 0x200, 0x300])),
        ],
    );
    let p = BMGRawParser::try_new(data, false).unwrap();
    assert_eq!(p.try_get_msg(0).unwrap().id, 0x100);
    assert_eq!(p.try_get_msg(2).unwrap().id, 0x300);
    assert!(p.try_get_msg(2).unwrap().text.is_empty());
}

#[test]
fn message_past_the_mid1_identifiers_fails() {
    let data = bmg_file(
        1,
        &[("INF1", inf1(&[(1, [0; 4]), (6, [0; 4])])), ("DAT1", dat1()), ("MID1", mid1(&[7]))],
    );
    let p = BMGRawParser::try_new(data, false).unwrap();
    assert_eq!(p.try_get_msg(0).unwrap().id, 7);
    assert!(p.try_get_msg(1).is_none());
    assert!(p.try_get_all_messages().is_none());
}

#[test]
fn report_of_flow_sections() {
    let nodes = [
        [1, 0, 0, 0, 1, 0, 0, 0],
        [2, 5, 3, 0, 4, 0, 1, 0],
        [3, 7, 0, 0, 9, 0, 0, 0],
        [9, 9, 9, 9, 9, 9, 9, 9],
    ];
    let data = bmg_file(
        1,
        &[
            ("INF1", inf1(&[(1, [0; 4]), (6, [0; 4]), (0, [0; 4])])),
            ("DAT1", dat1()),
            ("MID1", mid1(&[4, 5, 6])),
            ("FLW1", flw1(&nodes, &[2, 0xFFFF, 3])),
            ("FLI1", fli1(&[[1, 0, 0, 0, 2, 0, 0, 0], [3, 0, 0, 0, 4, 0, 0, 0], [5, 0, 0, 0, 6, 0, 0, 0]])),
        ],
    );
    let p = BMGRawParser::try_new(data, false).unwrap();
    let r = p.report().unwrap();
    let kinds: Vec<&str> = r.iter().map(|s| s.section_type.as_str()).collect();
    assert_eq!(kinds, vec!["INF1", "DAT1", "MID1", "FLW1", "FLI1"]);
    match &r[2].summary {
        SectionSummary::MID1 { count, ids } => {
            assert_eq!(*count, 3);
            assert_eq!(ids, &vec![4, 5, 6]);
        },
        _ => panic!("expected MID1"),
    }
    match &r[3].summary {
        SectionSummary::FLW1 { node_count, ind_count, nodes, indir } => {
            // the node of unknown kind is not read
            assert_eq!((*node_count, *ind_count), (4, 3));
            assert_eq!(format!("{:X?}", nodes[1]), "Branch { id: 2, doorquery: 5, query_fn: 3, param: 4, indir_offset: 1 }");
            assert_eq!(format!("{:?}", nodes[2]), "Event { id: 3, event_fn: 7, indir_idx: 0, params: 9 }");
            assert_eq!(indir, &vec![2, 0xFFFF, 3]);
        },
        _ => panic!("expected FLW1"),
    }
    match &r[4].summary {
        SectionSummary::FLI1 { count, flow_entries } => {
            assert_eq!(*count, 3);
            assert_eq!((flow_entries[1].id, flow_entries[1].node_idx), (3, 4));
        },
        _ => panic!("expected FLI1"),
    }
    // the node of unknown kind leaves fewer nodes than the count: looking for
    // an unvisited message node reaches past the nodes read
    assert!(p.flow_report().is_none());
}

#[test]
fn big_endian_files_are_read() {
    let mut f = Vec::new();
    f.extend_from_slice(b"MESGbmg1");
    f.extend_from_slice(&0u32.to_be_bytes());
    f.extend_from_slice(&1u32.to_be_bytes());
    f.push(3);
    f.resize(0x20, 0);
    let mut body = Vec::new();
    body.extend_from_slice(&1u16.to_be_bytes());
    body.extend_from_slice(&8u16.to_be_bytes());
    body.extend_from_slice(&0u32.to_be_bytes());
    body.extend_from_slice(&0x11223344u32.to_be_bytes());
    body.extend_from_slice(&[0; 4]);
    f.extend_from_slice(b"INF1");
    f.extend_from_slice(&((body.len() + 8) as u32).to_be_bytes());
    f.extend_from_slice(&body);
    let p = BMGRawParser::try_new(f, true).unwrap();
    assert_eq!(p.get_header().sections_cnt, 1);
    assert_eq!(p.get_encoding(), TextEncoding::ShiftJis);
    match p.get_section(INF1) {
        Some(BMGSectionData::INF1(d)) => assert_eq!(d.entries[0].offset, 0x11223344),
        _ => panic!("no INF1 section"),
    }
    // without a DAT1 section every message is the default one
    let m = p.try_get_msg(0).unwrap();
    assert_eq!(m.id, 0);
    assert!(m.text.is_empty());
}

#[test]
fn utf16_message_with_tag() {
    let d = vec![0u8, 0, b'A', 0, 0x1A, 0, 7, 0xFF, 0, 1, 5, b'B', 0, 0, 0];
    let p = BMGRawParser::try_new(bmg_file(2, &[("INF1", inf1(&[(2, [0; 4])])), ("DAT1", d)]), false).unwrap();
    let m = p.try_get_msg(0).unwrap();
    assert_eq!(m.text.len(), 3);
    match &m.text[1] {
        TextPart::Tag(t) => assert_eq!((t.group, t.number, t.payload.clone()), (0xFF, 1, vec![5])),
        _ => panic!("expected tag"),
    }
    assert_eq!(get_raw_msg(&m.text, None), "A[Tag]B");
}

#[test]
fn text_running_to_the_end_gets_an_empty_last_piece() {
    let d = vec![0u8, b'a', b'b', b'c'];
    let p = BMGRawParser::try_new(bmg_file(1, &[("INF1", inf1(&[(1, [0; 4])])), ("DAT1", d)]), false).unwrap();
    let m = p.try_get_msg(0).unwrap();
    assert_eq!(m.text.len(), 2);
    match (&m.text[0], &m.text[1]) {
        (TextPart::Text(a), TextPart::Text(b)) => assert_eq!((a.as_str(), b.as_str()), ("abc", "")),
        _ => panic!("expected two texts"),
    }
}

#[test]
fn unreadable_texts_fail() {
    // a UTF-16 text without its terminator, and a tag size below its header
    let wide = vec![0u8, 0, b'A', 0];
    let p = BMGRawParser::try_new(bmg_file(2, &[("INF1", inf1(&[(2, [0; 4])])), ("DAT1", wide)]), false).unwrap();
    assert!(p.try_get_msg(0).is_none());
    let short = vec![0u8, b'A', 0x1A, 1, 0];
    let q = BMGRawParser::try_new(bmg_file(1, &[("INF1", inf1(&[(1, [0; 4])])), ("DAT1", short)]), false).unwrap();
    assert!(q.try_get_msg(0).is_none());
    let outside = BMGRawParser::try_new(bmg_file(1, &[("INF1", inf1(&[(40, [0; 4])])), ("DAT1", dat1())]), false).unwrap();
    assert!(outside.try_get_msg(0).is_none());
}

#[test]
fn headers_past_the_data_are_not_read() {
    let data = sample();
    assert_eq!(bmg_dump::bmg_raw_parser::first_unread_header(&data, false, 2), 2);
    // a count larger than the sections present: the third header lies at the end
    assert_eq!(bmg_dump::bmg_raw_parser::first_unread_header(&data, false, 5), 2);
    assert_eq!(bmg_dump::bmg_raw_parser::first_unread_header(&data, false, 0), 0);
    let mut more = data.clone();
    more[0x0C] = 5;
    let p = BMGRawParser::try_new(more, false).unwrap();
    assert_eq!(p.try_get_all_messages().unwrap().len(), 2);
}

#[test]
fn blocks_past_the_data_are_not_read() {
    let data = msbt_file(&[("LBL1", 8), ("ATR1", 8)]);
    assert_eq!(bmg_dump::msbt_parser::first_unread_block(&data, false, 2), 2);
    assert_eq!(bmg_dump::msbt_parser::first_unread_block(&data, false, 4), 2);
}

#[test]
fn parsers_list_messages_through_the_common_trait() {
    let p = BMGRawParser::try_new(sample(), false).unwrap();
    let all = MessageParser::get_all_messages(&p);
    assert_eq!(all.len(), 2);
    assert_eq!(all[1].id, 2);
}
