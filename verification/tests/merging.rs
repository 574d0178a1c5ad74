use bmg_dump::bmg_message::{Message, MessageAttributes, MessageSingleLang, Tag, TextPart};
use bmg_dump::bmg_parser::{BMGParser, BANK_COUNT};

fn text(s: &str) -> Vec<TextPart> {
    vec![TextPart::Text(s.to_string())]
}

fn single(id: usize, s: &str, attribs: Vec<u8>) -> MessageSingleLang {
    MessageSingleLang { text: if s.is_empty() { Vec::new() } else { text(s) }, attribs: MessageAttributes { payload: attribs }, id }
}

fn shown(m: &Message) -> Vec<String> {
    m.display_texts()
}

#[test]
fn new_parser_has_empty_banks() {
    let p = BMGParser::new();
    for b in 0..BANK_COUNT {
        assert!(p.bank(b).is_empty());
    }
}

#[test]
fn added_text_is_read_back() {
    let mut p = BMGParser::new();
    assert_eq!(p.add_message(&single(3, "hello", vec![0; 4]), 1, 0), None);
    let bank = p.bank(0);
    assert_eq!(bank.len(), 3);
    assert_eq!(bank[2].id, 3);
    assert_eq!(shown(&bank[2]), vec!["".to_string(), "hello".to_string()]);
    assert!(bank[0].is_empty() && bank[0].id == 0);
    assert!(bank[1].is_empty());
    assert!(p.bank(1).is_empty());
}

#[test]
fn first_text_wins() {
    let mut p = BMGParser::new();
    p.add_message(&single(1, "first", vec![0; 4]), 0, 2);
    assert_eq!(p.add_message(&single(1, "second", vec![0; 4]), 0, 2), Some(0));
    assert_eq!(shown(&p.bank(2)[0]), vec!["first".to_string()]);
}

#[test]
fn languages_fill_their_own_columns() {
    let mut p = BMGParser::new();
    p.add_message(&single(1, "jp", vec![0; 4]), 0, 0);
    p.add_message(&single(1, "fr", vec![0; 4]), 2, 0);
    assert_eq!(shown(&p.bank(0)[0]), vec!["jp".to_string(), "".to_string(), "fr".to_string()]);
}

#[test]
fn empty_message_changes_nothing() {
    let mut p = BMGParser::new();
    assert_eq!(p.add_message(&single(4, "", vec![0; 16]), 0, 0), None);
    assert!(p.bank(0).is_empty());
}

#[test]
fn message_without_identifier_goes_last() {
    let mut p = BMGParser::new();
    p.add_message(&single(2, "b", vec![0; 4]), 0, 0);
    p.add_message(&single(0, "c", vec![0; 4]), 0, 0);
    let bank = p.bank(0);
    assert_eq!(bank.len(), 3);
    assert_eq!(shown(&bank[2]), vec!["c".to_string()]);
    assert_eq!(bank[2].id, 0);
}

#[test]
fn attributes_are_set_once() {
    let mut p = BMGParser::new();
    p.add_message(&single(1, "", vec![5, 0]), 0, 0);
    assert_eq!(p.bank(0)[0].attribs.payload, vec![5, 0]);
    p.add_message(&single(1, "x", vec![7, 7]), 1, 0);
    assert_eq!(p.bank(0)[0].attribs.payload, vec![5, 0]);
    let mut q = BMGParser::new();
    q.add_message(&single(1, "x", vec![0, 0]), 0, 0);
    q.add_message(&single(1, "y", vec![9]), 1, 0);
    assert_eq!(q.bank(0)[0].attribs.payload, vec![9]);
}

#[test]
fn adding_a_file_reports_conflicts() {
    let mut p = BMGParser::new();
    let msgs = vec![single(1, "a", vec![0]), single(2, "b", vec![0]), single(1, "c", vec![0]), single(0, "", vec![0])];
    let conflicts = p.add_messages(&msgs, 0, 5).unwrap();
    assert_eq!(conflicts, vec![(2, 0)]);
    let bank = p.bank(5);
    assert_eq!(bank.len(), 2);
    assert_eq!(shown(&bank[0]), vec!["a".to_string()]);
    assert_eq!(shown(&bank[1]), vec!["b".to_string()]);
}

#[test]
fn emptiness_of_messages() {
    let m = Message { text: vec![Vec::new(), Vec::new()], attribs: MessageAttributes { payload: vec![1] }, id: 1 };
    assert!(m.is_empty());
    let n = Message { text: vec![Vec::new(), text("x")], attribs: MessageAttributes { payload: vec![] }, id: 1 };
    assert!(!n.is_empty());
    assert!(MessageSingleLang::new_default().is_empty());
    assert!(!single(1, "", vec![0, 1]).is_empty());
    assert!(!single(1, "t", vec![0]).is_empty());
    assert!(MessageAttributes { payload: vec![0, 0, 0] }.is_empty());
    assert!(!MessageAttributes { payload: vec![0, 2] }.is_empty());
}

#[test]
fn message_identifier_only_in_long_attributes() {
    let mut payload = vec![0x12, 0x34];
    payload.resize(16, 0);
    assert_eq!(MessageAttributes { payload: payload.clone() }.get_message_id(), None);
    payload.push(0);
    assert_eq!(MessageAttributes { payload }.get_message_id(), Some(0x1234));
}

#[test]
fn printing_style_is_the_seventh_attribute_byte() {
    let a = MessageAttributes { payload: vec![0, 1, 2, 3, 4, 5, 6, 7] };
    assert_eq!(a._get_printing_style(), 6);
}

#[test]
fn tag_from_record_bytes() {
    let t = Tag::from_bytes(&vec![0xFF, 0x00, 0x01, 0x05, 0x06]);
    assert_eq!((t.group, t.number, t.payload.clone()), (0xFF, 1, vec![5, 6]));
    let e = Tag::from_bytes(&vec![0x01, 0x02]);
    assert_eq!((e.group, e.number, e.payload.len()), (0, 0, 0));
}

#[test]
fn listing_skips_messages_without_text() {
    let mut p = BMGParser::new();
    p.add_message(&single(3, "c", vec![0]), 0, 1);
    p.add_message(&single(1, "", vec![4]), 0, 1);
    let listed = p.non_empty_messages(1);
    assert_eq!(listed.len(), 1);
    assert_eq!(listed[0].id, 3);
    assert_eq!(p.exported_messages().len(), 1);
    assert!(p.non_empty_messages(0).is_empty());
}

#[test]
fn empty_message_is_ignored_for_any_bank() {
    let mut p = BMGParser::new();
    assert_eq!(p.add_message(&single(4, "", vec![0; 16]), 0, 12), None);
    assert_eq!(p.add_message(&single(4, "", vec![0; 16]), usize::MAX, 3), None);
    let msgs = vec![single(1, "", vec![0]), single(0, "", vec![])];
    assert_eq!(p.add_messages(&msgs, 0, 99), Some(vec![]));
    for b in 0..BANK_COUNT {
        assert!(p.bank(b).is_empty());
    }
}

#[test]
fn adding_twice_is_adding_once() {
    let mut once = BMGParser::new();
    let m = single(2, "x", vec![3]);
    once.add_message(&m, 1, 4);
    let mut twice = BMGParser::new();
    twice.add_message(&m, 1, 4);
    assert_eq!(twice.add_message(&m, 1, 4), Some(1));
    assert_eq!(once.bank(4).len(), twice.bank(4).len());
    assert_eq!(shown(&once.bank(4)[1]), shown(&twice.bank(4)[1]));
    assert_eq!(once.bank(4)[1].attribs.payload, twice.bank(4)[1].attribs.payload);
}
