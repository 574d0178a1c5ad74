use vstd::prelude::*;

use crate::utils::{get_u16_be, spec_u16_be};

verus! {

/// Copies `data[start..end]` into a new vector.
pub fn copy_range(data: &[u8], start: usize, end: usize) -> (r: Vec<u8>)
    requires
        start <= end <= data@.len(),
    ensures
        r@ == data@.subrange(start as int, end as int),
{
    let mut r: Vec<u8> = Vec::new();
    let mut i = start;
    while i < end
        invariant
            start <= i <= end <= data@.len(),
            r@ == data@.subrange(start as int, i as int),
        decreases end - i,
    {
        r.push(data[i]);
        i = i + 1;
    }
    r
}

/// Copies `data[start..end]` into a new vector.
pub fn copy_chars(data: &[char], start: usize, end: usize) -> (r: Vec<char>)
    requires
        start <= end <= data@.len(),
    ensures
        r@ == data@.subrange(start as int, end as int),
{
    let mut r: Vec<char> = Vec::new();
    let mut i = start;
    while i < end
        invariant
            start <= i <= end <= data@.len(),
            r@ == data@.subrange(start as int, i as int),
        decreases end - i,
    {
        r.push(data[i]);
        i = i + 1;
    }
    r
}

/// The attribute bytes that a message carries beside its text.
pub struct MessageAttributes {
    pub payload: Vec<u8>,
}

/// Whether every byte of `s` is zero.
pub open spec fn all_zero(s: Seq<u8>) -> bool {
    forall|i: int| 0 <= i < s.len() ==> s[i] == 0
}

/// The identifier stored in an attribute block: the big-endian `u16` at its
/// start, present only in blocks longer than 16 bytes.
pub open spec fn spec_message_id(payload: Seq<u8>) -> Option<u16> {
    if payload.len() > 16 {
        Some(spec_u16_be(payload, 0) as u16)
    } else {
        None
    }
}

impl MessageAttributes {
    /// An attribute block with no bytes.
    pub fn new_empty() -> (r: MessageAttributes)
        ensures
            r.payload@ == Seq::<u8>::empty(),
    {
        MessageAttributes { payload: Vec::new() }
    }

    /// A copy of these attributes.
    pub fn duplicate(&self) -> (r: MessageAttributes)
        ensures
            r.payload@ == self.payload@,
    {
        MessageAttributes { payload: copy_range(self.payload.as_slice(), 0, self.payload.len()) }
    }

    /// The message identifier held in the attributes, if the block is long
    /// enough to hold one.
    pub fn get_message_id(&self) -> (r: Option<u16>)
        ensures
            r == spec_message_id(self.payload@),
    {
        if self.payload.len() > 16 {
            Some(get_u16_be(self.payload.as_slice(), 0))
        } else {
            None
        }
    }

    /// The printing-style byte of the attributes.
    pub fn _get_printing_style(&self) -> (r: u8)
        requires
            self.payload@.len() > 6,
        ensures
            r == self.payload@[6],
    {
        self.payload[6]
    }

    /// Whether all attribute bytes are zero.
    pub fn is_empty(&self) -> (r: bool)
        ensures
            r == all_zero(self.payload@),
    {
        let mut i: usize = 0;
        while i < self.payload.len()
            invariant
                i <= self.payload@.len(),
                forall|j: int| 0 <= j < i ==> self.payload@[j] == 0,
            decreases self.payload@.len() - i,
        {
            if self.payload[i] != 0 {
                return false;
            }
            i = i + 1;
        }
        true
    }
}

/// A control code inside message text: a group, a number inside the group
/// and the bytes that go with it.
pub struct Tag {
    pub group: u8,
    pub number: u16,
    pub payload: Vec<u8>,
}

/// The mathematical value of a [`Tag`].
pub struct TagView {
    pub group: u8,
    pub number: u16,
    pub payload: Seq<u8>,
}

impl View for Tag {
    type V = TagView;

    open spec fn view(&self) -> TagView {
        TagView { group: self.group, number: self.number, payload: self.payload@ }
    }
}

/// One piece of a message: plain text or a control tag.
pub enum TextPart {
    Text(String),
    Tag(Tag),
}

/// The mathematical value of a [`TextPart`].
pub enum PartView {
    Text(Seq<char>),
    Tag(TagView),
}

impl View for TextPart {
    type V = PartView;

    open spec fn view(&self) -> PartView {
        match self {
            TextPart::Text(s) => PartView::Text(s@),
            TextPart::Tag(t) => PartView::Tag(t@),
        }
    }
}

/// The text of a message in one language.
pub type MessageText = Vec<TextPart>;

/// The value of a message text: the values of its parts.
pub open spec fn text_view(t: Seq<TextPart>) -> Seq<PartView> {
    t.map_values(|p: TextPart| p@)
}

/// The tag that a raw tag record holds: a group byte, a big-endian number
/// and the remaining bytes as payload; records of at most two bytes give the
/// empty tag.
pub open spec fn spec_tag_from(value: Seq<u8>) -> TagView {
    if value.len() > 2 {
        TagView {
            group: value[0],
            number: spec_u16_be(value, 1) as u16,
            payload: value.subrange(3, value.len() as int),
        }
    } else {
        TagView { group: 0, number: 0, payload: Seq::empty() }
    }
}

impl Tag {
    /// The empty tag: group 0, number 0, no payload.
    pub fn new_empty() -> (r: Tag)
        ensures
            r@ == (TagView { group: 0, number: 0, payload: Seq::empty() }),
    {
        Tag { group: 0, number: 0, payload: Vec::new() }
    }

    /// Builds a tag from the bytes of a raw tag record.
    pub fn from_bytes(value: &Vec<u8>) -> (r: Tag)
        ensures
            r@ == spec_tag_from(value@),
    {
        if value.len() > 2 {
            Tag {
                group: value[0],
                number: get_u16_be(value.as_slice(), 1),
                payload: copy_range(value.as_slice(), 3, value.len()),
            }
        } else {
            Tag::new_empty()
        }
    }

    /// A copy of this tag.
    pub fn duplicate(&self) -> (r: Tag)
        ensures
            r@ == self@,
    {
        let payload = copy_range(self.payload.as_slice(), 0, self.payload.len());
        assert(payload@ =~= self.payload@);
        Tag { group: self.group, number: self.number, payload }
    }
}

impl TextPart {
    /// A copy of this part.
    pub fn duplicate(&self) -> (r: TextPart)
        ensures
            r@ == self@,
    {
        match self {
            TextPart::Text(s) => TextPart::Text(s.clone()),
            TextPart::Tag(t) => TextPart::Tag(t.duplicate()),
        }
    }
}

/// A copy of a message text.
pub fn duplicate_text(t: &MessageText) -> (r: MessageText)
    ensures
        text_view(r@) == text_view(t@),
{
    let mut r: MessageText = Vec::new();
    let mut i: usize = 0;
    while i < t.len()
        invariant
            i <= t@.len(),
            r@.len() == i,
            forall|j: int| 0 <= j < i ==> r@[j]@ == t@[j]@,
        decreases t@.len() - i,
    {
        r.push(t[i].duplicate());
        i = i + 1;
    }
    assert(text_view(r@) =~= text_view(t@));
    r
}

/// A message in every language: one text per language, the attributes and
/// the identifier.
pub struct Message {
    pub text: Vec<MessageText>,
    pub attribs: MessageAttributes,
    pub id: usize,
}

/// A message in a single language.
pub struct MessageSingleLang {
    pub text: MessageText,
    pub attribs: MessageAttributes,
    pub id: usize,
}

/// The value of a [`MessageSingleLang`].
pub struct SingleView {
    pub text: Seq<PartView>,
    pub attribs: Seq<u8>,
    pub id: usize,
}

impl View for MessageSingleLang {
    type V = SingleView;

    open spec fn view(&self) -> SingleView {
        SingleView { text: text_view(self.text@), attribs: self.attribs.payload@, id: self.id }
    }
}

/// The value of the default single-language message: no text, no
/// attributes, identifier 0.
pub open spec fn default_single() -> SingleView {
    SingleView { text: Seq::empty(), attribs: Seq::empty(), id: 0 }
}

/// The value of a [`Message`].
pub struct MessageView {
    pub text: Seq<Seq<PartView>>,
    pub attribs: Seq<u8>,
    pub id: usize,
}

impl View for Message {
    type V = MessageView;

    open spec fn view(&self) -> MessageView {
        MessageView {
            text: self.text@.map_values(|t: MessageText| text_view(t@)),
            attribs: self.attribs.payload@,
            id: self.id,
        }
    }
}

/// The value of the default message: no text, no attributes, identifier 0.
pub open spec fn default_message() -> MessageView {
    MessageView { text: Seq::empty(), attribs: Seq::empty(), id: 0 }
}

impl Message {
    /// A message with no text, no attributes and identifier 0.
    pub fn new_default() -> (r: Message)
        ensures
            r@ == default_message(),
    {
        let r = Message { text: Vec::new(), attribs: MessageAttributes::new_empty(), id: 0 };
        assert(r@.text =~= Seq::<Seq<PartView>>::empty());
        r
    }

    /// Whether the message has no text in any language.
    pub fn is_empty(&self) -> (r: bool)
        ensures
            r == msg_is_empty(self@),
    {
        let mut i: usize = 0;
        while i < self.text.len()
            invariant
                i <= self.text@.len(),
                forall|j: int| 0 <= j < i ==> #[trigger] self.text@[j]@.len() == 0,
            decreases self.text@.len() - i,
        {
            if self.text[i].len() != 0 {
                assert(self@.text[i as int].len() != 0);
                return false;
            }
            i = i + 1;
        }
        assert forall|j: int| 0 <= j < self@.text.len() implies #[trigger] self@.text[j].len() == 0 by {
            assert(self.text@[j]@.len() == 0);
        }
        true
    }
}

/// Whether a message has no text in any language.
pub open spec fn msg_is_empty(m: MessageView) -> bool {
    forall|i: int| 0 <= i < m.text.len() ==> #[trigger] m.text[i].len() == 0
}

impl MessageSingleLang {
    /// A message with no text, no attributes and identifier 0.
    pub fn new_default() -> (r: MessageSingleLang)
        ensures
            r@ == default_single(),
    {
        let r = MessageSingleLang { text: Vec::new(), attribs: MessageAttributes::new_empty(), id: 0 };
        assert(text_view(r.text@) =~= Seq::<PartView>::empty());
        r
    }

    /// A copy of this message.
    pub fn duplicate(&self) -> (r: MessageSingleLang)
        ensures
            r@ == self@,
    {
        MessageSingleLang { text: duplicate_text(&self.text), attribs: self.attribs.duplicate(), id: self.id }
    }

    /// Whether the message has neither text nor any non-zero attribute byte.
    pub fn is_empty(&self) -> (r: bool)
        ensures
            r == (self.text@.len() == 0 && all_zero(self.attribs.payload@)),
    {
        self.text.len() == 0 && self.attribs.is_empty()
    }
}


/// A reader of message files that can list the messages it holds.
pub trait MessageParser {
    /// Whether the reader is in a state to list its messages.
    spec fn parser_ready(&self) -> bool;

    /// All messages the reader holds, in order.
    fn get_all_messages(&self) -> (r: Vec<MessageSingleLang>)
        requires
            self.parser_ready(),
    ;
}

} // verus!
