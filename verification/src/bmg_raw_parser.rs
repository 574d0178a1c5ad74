use vstd::prelude::*;

use crate::bmg_message::{
    copy_range, default_single, spec_message_id, spec_tag_from, text_view, MessageAttributes,
    MessageSingleLang, MessageText, PartView, SingleView, Tag, TagView, TextPart,
};
use crate::text_codec::{decode_bytes, decoded_text, encoding_of, spec_encoding_of, TextEncoding};
use crate::text_codec::str_from_utf8;
use crate::utils::{get_u16_le, get_u16_order, get_u32_order, spec_u16, spec_u16_le, spec_u32};
use vstd::string::StrSliceExecFns;
use vstd::utf8::{decode_utf8, valid_utf8};

verus! {

// ---------------------------------------------------------------------------
// Message text inside a DAT1 section
// ---------------------------------------------------------------------------

/// Whether a byte ends a run of text: 0x00 ends the message, 0x1A starts a
/// tag.
pub open spec fn is_stop_byte(b: u8) -> bool {
    b == 0 || b == 0x1A
}

/// The first position at or after `pos` that holds a stop byte, or the
/// length of `data` if there is none.
pub open spec fn find_plain_stop(data: Seq<u8>, pos: int) -> int
    decreases data.len() - pos,
{
    if pos >= data.len() {
        data.len() as int
    } else if is_stop_byte(data[pos]) {
        pos
    } else {
        find_plain_stop(data, pos + 1)
    }
}

/// Whether the UTF-16LE code unit at `i` ends a run of text.
pub open spec fn is_stop_unit(data: Seq<u8>, i: int) -> bool {
    spec_u16_le(data, i) == 0 || spec_u16_le(data, i) == 0x1A
}

/// The first position `pos + 2k` that holds a stop code unit; `None` when
/// the data runs out before one is found.
pub open spec fn find_wide_stop(data: Seq<u8>, pos: int) -> Option<int>
    decreases data.len() - pos,
{
    if pos + 2 > data.len() {
        None
    } else if is_stop_unit(data, pos) {
        Some(pos)
    } else {
        find_wide_stop(data, pos + 2)
    }
}

pub proof fn lemma_find_plain_stop(data: Seq<u8>, pos: int)
    requires
        0 <= pos <= data.len(),
    ensures
        pos <= find_plain_stop(data, pos) <= data.len(),
        find_plain_stop(data, pos) < data.len() ==> is_stop_byte(data[find_plain_stop(data, pos)]),
        forall|k: int| pos <= k < find_plain_stop(data, pos) ==> !is_stop_byte(#[trigger] data[k]),
    decreases data.len() - pos,
{
    if pos < data.len() && !is_stop_byte(data[pos]) {
        lemma_find_plain_stop(data, pos + 1);
    }
}

pub proof fn lemma_find_wide_stop(data: Seq<u8>, pos: int)
    requires
        0 <= pos,
    ensures
        find_wide_stop(data, pos) matches Some(j) ==> pos <= j && j + 2 <= data.len()
            && is_stop_unit(data, j),
    decreases data.len() - pos,
{
    if pos + 2 <= data.len() && !is_stop_unit(data, pos) {
        lemma_find_wide_stop(data, pos + 2);
    }
}

/// The size byte of a tag whose size byte would stand at `next`; a missing
/// byte counts as 0.
pub open spec fn tag_size(data: Seq<u8>, next: int) -> int {
    if next < data.len() {
        data[next] as int
    } else {
        0
    }
}

/// Where the payload of a tag whose size byte would stand at `next` begins.
pub open spec fn tag_start(data: Seq<u8>, next: int) -> int {
    if next < data.len() {
        next + 1
    } else {
        next
    }
}

/// The tag that starts with its size byte at `next`, and the position after
/// it. `header` is the number of bytes that the size counts besides the
/// tag record (2, or 3 in UTF-16 text). `None` when the size is smaller than
/// that, where the size computation would underflow.
pub open spec fn tag_part(data: Seq<u8>, next: int, header: int) -> Option<(TagView, int)> {
    let size = tag_size(data, next);
    if size < header {
        None
    } else {
        let s = tag_start(data, next);
        let e = if s + size - header < data.len() { s + size - header } else { data.len() as int };
        Some((spec_tag_from(data.subrange(s, e)), e))
    }
}

/// Prefixes `prefix` to a sequence of parts that may be missing.
pub open spec fn prepend_parts(prefix: Seq<PartView>, rest: Option<Seq<PartView>>) -> Option<Seq<PartView>> {
    match rest {
        None => None,
        Some(r) => Some(prefix + r),
    }
}

/// The parts of the message text that starts at `pos`: runs of text,
/// decoded with `enc`, separated by tags, up to the terminator. `wide`
/// selects two-byte code units. `None` where reading the text would fail:
/// a UTF-16 text that runs out before its terminator, or a tag size too
/// small for the tag header.
pub open spec fn msg_parts(data: Seq<u8>, pos: int, wide: bool, enc: TextEncoding) -> Option<Seq<PartView>>
    decreases data.len() - pos,
{
    if pos < 0 || pos > data.len() {
        None
    } else if wide {
        match find_wide_stop(data, pos) {
            None => None,
            Some(j) => {
                let text = PartView::Text(decoded_text(enc, data.subrange(pos, j)));
                if spec_u16_le(data, j) == 0 {
                    Some(seq![text])
                } else {
                    match tag_part(data, j + 2, 3) {
                        None => None,
                        Some((tag, e)) => {
                            proof {
                                lemma_find_wide_stop(data, pos);
                            }
                            prepend_parts(seq![text, PartView::Tag(tag)], msg_parts(data, e, wide, enc))
                        },
                    }
                }
            },
        }
    } else {
        let j = find_plain_stop(data, pos);
        let text = PartView::Text(decoded_text(enc, data.subrange(pos, j)));
        proof {
            lemma_find_plain_stop(data, pos);
        }
        if j >= data.len() {
            if j == pos {
                Some(seq![text])
            } else {
                prepend_parts(seq![text], msg_parts(data, data.len() as int, wide, enc))
            }
        } else if data[j] == 0 {
            Some(seq![text])
        } else {
            match tag_part(data, j + 1, 2) {
                None => None,
                Some((tag, e)) => prepend_parts(seq![text, PartView::Tag(tag)], msg_parts(data, e, wide, enc)),
            }
        }
    }
}

/// The message that starts at `offset` of a DAT1 section whose header gave
/// the encoding byte `code`: empty if the first byte is 0, else the parts
/// up to the terminator. `None` where reading it would fail, including an
/// offset outside the data.
pub open spec fn spec_msg_at(data: Seq<u8>, offset: int, code: u8) -> Option<Seq<PartView>> {
    if offset < 0 || offset >= data.len() {
        None
    } else if data[offset] == 0 {
        Some(Seq::empty())
    } else {
        msg_parts(data, offset, code == 2, spec_encoding_of(code))
    }
}

fn find_plain_stop_exec(data: &[u8], pos: usize) -> (j: usize)
    requires
        pos <= data@.len(),
    ensures
        j == find_plain_stop(data@, pos as int),
{
    let mut i = pos;
    while i < data.len() && data[i] != 0 && data[i] != 0x1A
        invariant
            pos <= i <= data@.len(),
            find_plain_stop(data@, pos as int) == find_plain_stop(data@, i as int),
        decreases data@.len() - i,
    {
        i = i + 1;
    }
    i
}

fn find_wide_stop_exec(data: &[u8], pos: usize) -> (j: Option<usize>)
    requires
        pos <= data@.len(),
    ensures
        j matches Some(v) ==> find_wide_stop(data@, pos as int) == Some(v as int),
        j is None ==> find_wide_stop(data@, pos as int) is None,
{
    let mut i = pos;
    while data.len() - i >= 2
        invariant
            pos <= i <= data@.len(),
            find_wide_stop(data@, pos as int) == find_wide_stop(data@, i as int),
        decreases data@.len() - i,
    {
        let v = get_u16_le(data, i);
        if v == 0 || v == 0x1A {
            return Some(i);
        }
        i = i + 2;
    }
    None
}

fn read_tag(data: &[u8], next: usize, header: u8) -> (r: Option<(Tag, usize)>)
    requires
        next <= data@.len(),
    ensures
        r matches Some((t, e)) ==> tag_part(data@, next as int, header as int) == Some((t@, e as int)),
        r is None ==> tag_part(data@, next as int, header as int) is None,
{
    let size: u8 = if next < data.len() { data[next] } else { 0 };
    let s: usize = if next < data.len() { next + 1 } else { next };
    if size < header {
        return None;
    }
    let payload_size = (size - header) as usize;
    let e: usize = if payload_size < data.len() - s { s + payload_size } else { data.len() };
    let bytes = copy_range(data, s, e);
    let tag = Tag::from_bytes(&bytes);
    Some((tag, e))
}

/// The raw bytes of a DAT1 section, where the texts of the messages live.
pub struct DAT1Data {
    pub data: Vec<u8>,
}

impl DAT1Data {
    /// Reads the message at `offset` with the encoding that `encoding`
    /// selects; `None` where the text is malformed in a way that makes
    /// reading it fail (see [`spec_msg_at`]).
    pub fn get_msg_at(&self, offset: usize, encoding: u8) -> (r: Option<MessageText>)
        requires
            self.data@.len() <= usize::MAX / 4,
        ensures
            r matches Some(t) ==> spec_msg_at(self.data@, offset as int, encoding) == Some(text_view(t@)),
            r is None ==> spec_msg_at(self.data@, offset as int, encoding) is None,
    {
        let data = self.data.as_slice();
        if offset >= data.len() {
            return None;
        }
        if data[offset] == 0 {
            let empty: MessageText = Vec::new();
            assert(text_view(empty@) =~= Seq::<PartView>::empty());
            return Some(empty);
        }
        let enc = encoding_of(encoding);
        let wide = encoding == 2;
        let ghost target = msg_parts(data@, offset as int, wide, enc);
        assert(target == spec_msg_at(self.data@, offset as int, encoding));
        let mut pos = offset;
        let mut parts: MessageText = Vec::new();
        assert(text_view(parts@) =~= Seq::<PartView>::empty());
        assert(prepend_parts(Seq::<PartView>::empty(), target) == target) by {
            if let Some(t) = target {
                assert(Seq::<PartView>::empty() + t =~= t);
            }
        }
        loop
            invariant
                pos <= data@.len() <= usize::MAX / 4,
                data@ == self.data@,
                wide == (encoding == 2),
                enc == spec_encoding_of(encoding),
                target == spec_msg_at(self.data@, offset as int, encoding),
                target == prepend_parts(text_view(parts@), msg_parts(data@, pos as int, wide, enc)),
            decreases data@.len() - pos,
        {
            let ghost before = text_view(parts@);
            if wide {
                let j = match find_wide_stop_exec(data, pos) {
                    None => {
                        return None;
                    },
                    Some(j) => j,
                };
                proof {
                    lemma_find_wide_stop(data@, pos as int);
                }
                let text = decode_bytes(enc, &data[pos..j]);
                let v = get_u16_le(data, j);
                let ghost tpart = PartView::Text(text@);
                parts.push(TextPart::Text(text));
                assert(text_view(parts@) =~= before + seq![tpart]);
                if v == 0 {
                    assert(before + seq![tpart] =~= before + seq![tpart]);
                    return Some(parts);
                }
                match read_tag(data, j + 2, 3) {
                    None => {
                        return None;
                    },
                    Some((tag, e)) => {
                        let ghost tagv = tag@;
                        parts.push(TextPart::Tag(tag));
                        assert(text_view(parts@) =~= before + seq![tpart, PartView::Tag(tagv)]);
                        proof {
                            let rest = msg_parts(data@, e as int, wide, enc);
                            if let Some(r) = rest {
                                assert(before + (seq![tpart, PartView::Tag(tagv)] + r)
                                    =~= (before + seq![tpart, PartView::Tag(tagv)]) + r);
                            }
                        }
                        pos = e;
                    },
                }
            } else {
                let j = find_plain_stop_exec(data, pos);
                proof {
                    lemma_find_plain_stop(data@, pos as int);
                }
                let text = decode_bytes(enc, &data[pos..j]);
                let ghost tpart = PartView::Text(text@);
                parts.push(TextPart::Text(text));
                assert(text_view(parts@) =~= before + seq![tpart]);
                if j >= data.len() {
                    if j == pos {
                        return Some(parts);
                    }
                    proof {
                        let rest = msg_parts(data@, data@.len() as int, wide, enc);
                        if let Some(r) = rest {
                            assert(before + (seq![tpart] + r) =~= (before + seq![tpart]) + r);
                        }
                    }
                    pos = data.len();
                } else if data[j] == 0 {
                    return Some(parts);
                } else {
                    match read_tag(data, j + 1, 2) {
                        None => {
                            return None;
                        },
                        Some((tag, e)) => {
                            let ghost tagv = tag@;
                            parts.push(TextPart::Tag(tag));
                            assert(text_view(parts@) =~= before + seq![tpart, PartView::Tag(tagv)]);
                            proof {
                                let rest = msg_parts(data@, e as int, wide, enc);
                                if let Some(r) = rest {
                                    assert(before + (seq![tpart, PartView::Tag(tagv)] + r)
                                        =~= (before + seq![tpart, PartView::Tag(tagv)]) + r);
                                }
                            }
                            pos = e;
                        },
                    }
                }
            }
        }
    }
}


// ---------------------------------------------------------------------------
// Errors
// ---------------------------------------------------------------------------

/// Why a BMG file could not be read.
pub enum BMGParseError {
    /// A section or file identifier is not valid UTF-8.
    InvalidSectionID(core::str::Utf8Error),
    /// A section identifier names no section kind that can be read.
    UnknownSectionID,
}

/// The kind of a [`BMGParseError`], without the UTF-8 error details.
#[derive(Clone, Copy, Debug, PartialEq, Eq, Structural)]
pub enum ParseErrorKind {
    InvalidSectionID,
    UnknownSectionID,
}

impl View for BMGParseError {
    type V = ParseErrorKind;

    open spec fn view(&self) -> ParseErrorKind {
        match self {
            BMGParseError::InvalidSectionID(_) => ParseErrorKind::InvalidSectionID,
            BMGParseError::UnknownSectionID => ParseErrorKind::UnknownSectionID,
        }
    }
}

impl BMGParseError {
    /// The kind of this error.
    pub fn kind(&self) -> (r: ParseErrorKind)
        ensures
            r == self@,
    {
        match self {
            BMGParseError::InvalidSectionID(_) => ParseErrorKind::InvalidSectionID,
            BMGParseError::UnknownSectionID => ParseErrorKind::UnknownSectionID,
        }
    }
}

/// The value of a reading step that may fail with an error or, where the
/// layout is malformed beyond what the format reports as an error, not
/// produce a result at all (`None`).
pub open spec fn outcome_view<T: View>(r: Option<Result<T, BMGParseError>>) -> Option<Result<T::V, ParseErrorKind>> {
    match r {
        None => None,
        Some(Ok(v)) => Some(Ok(v@)),
        Some(Err(e)) => Some(Err(e@)),
    }
}

// ---------------------------------------------------------------------------
// Section kinds
// ---------------------------------------------------------------------------

/// The slot of each section kind in the parsed file.
pub const SECTION_COUNT: usize = 6;
pub const INF1: usize = 0;
pub const DAT1: usize = 1;
pub const MID1: usize = 2;
pub const STR1: usize = 3;
pub const FLW1: usize = 4;
pub const FLI1: usize = 5;

/// The slot of the section kind that a four-character identifier names.
pub open spec fn spec_get_idx(t: Seq<char>) -> Option<usize> {
    if t == seq!['I', 'N', 'F', '1'] {
        Some(INF1)
    } else if t == seq!['D', 'A', 'T', '1'] {
        Some(DAT1)
    } else if t == seq!['M', 'I', 'D', '1'] {
        Some(MID1)
    } else if t == seq!['S', 'T', 'R', '1'] {
        Some(STR1)
    } else if t == seq!['F', 'L', 'W', '1'] {
        Some(FLW1)
    } else if t == seq!['F', 'L', 'I', '1'] {
        Some(FLI1)
    } else {
        None
    }
}

/// Whether `s` is the four characters `a`, `b`, `c`, `d`.
pub fn str_is4(s: &str, a: char, b: char, c: char, d: char) -> (r: bool)
    ensures
        r == (s@ == seq![a, b, c, d]),
{
    if s.unicode_len() != 4 {
        return false;
    }
    let r = s.get_char(0) == a && s.get_char(1) == b && s.get_char(2) == c && s.get_char(3) == d;
    proof {
        if r {
            assert(s@ =~= seq![a, b, c, d]);
        }
    }
    r
}

/// The slot of the section kind that `type_str` names.
pub fn get_idx(type_str: &str) -> (r: Option<usize>)
    ensures
        r == spec_get_idx(type_str@),
{
    if str_is4(type_str, 'I', 'N', 'F', '1') {
        Some(INF1)
    } else if str_is4(type_str, 'D', 'A', 'T', '1') {
        Some(DAT1)
    } else if str_is4(type_str, 'M', 'I', 'D', '1') {
        Some(MID1)
    } else if str_is4(type_str, 'S', 'T', 'R', '1') {
        Some(STR1)
    } else if str_is4(type_str, 'F', 'L', 'W', '1') {
        Some(FLW1)
    } else if str_is4(type_str, 'F', 'L', 'I', '1') {
        Some(FLI1)
    } else {
        None
    }
}

// ---------------------------------------------------------------------------
// Section contents
// ---------------------------------------------------------------------------

/// One entry of the INF1 section: where a message's text starts in DAT1,
/// and its attribute bytes.
pub struct INF1Entry {
    pub offset: u32,
    pub attributes: Vec<u8>,
}

impl View for INF1Entry {
    type V = (u32, Seq<u8>);

    open spec fn view(&self) -> (u32, Seq<u8>) {
        (self.offset, self.attributes@)
    }
}

pub open spec fn entries_view(s: Seq<INF1Entry>) -> Seq<(u32, Seq<u8>)> {
    s.map_values(|e: INF1Entry| e@)
}

/// The INF1 section: the message table.
pub struct INF1Data {
    pub count: u16,
    pub entry_size: u16,
    pub _pad: u32,
    pub entries: Vec<INF1Entry>,
}

pub struct INF1View {
    pub count: u16,
    pub entry_size: u16,
    pub pad: u32,
    pub entries: Seq<(u32, Seq<u8>)>,
}

impl View for INF1Data {
    type V = INF1View;

    open spec fn view(&self) -> INF1View {
        INF1View {
            count: self.count,
            entry_size: self.entry_size,
            pad: self._pad,
            entries: entries_view(self.entries@),
        }
    }
}

/// The MID1 section: the identifiers of the messages.
pub struct MID1Data {
    pub count: u16,
    pub _format: u16,
    pub _unknown: u32,
    pub ids: Vec<u32>,
}

pub struct MID1View {
    pub count: u16,
    pub format: u16,
    pub unknown: u32,
    pub ids: Seq<u32>,
}

impl View for MID1Data {
    type V = MID1View;

    open spec fn view(&self) -> MID1View {
        MID1View { count: self.count, format: self._format, unknown: self._unknown, ids: self.ids@ }
    }
}

/// A node of the FLW1 flow graph.
#[derive(Clone, Copy, Debug, PartialEq, Eq, Structural)]
pub enum FLW1Node {
    Continuation { id: u8, doorquery: u8, inf1_idx: u16, next_node: u16, _pad: u16 },
    Branch { id: u8, doorquery: u8, query_fn: u16, param: u16, indir_offset: u16 },
    Event { id: u8, event_fn: u8, indir_idx: u16, params: u32 },
}

/// The FLW1 section: the flow graph and its indirection table.
pub struct FLW1Data {
    pub node_count: u16,
    pub ind_count: u16,
    pub _pad: u32,
    pub nodes: Vec<FLW1Node>,
    pub ind_table: Vec<u16>,
}

pub struct FLW1View {
    pub node_count: u16,
    pub ind_count: u16,
    pub pad: u32,
    pub nodes: Seq<FLW1Node>,
    pub ind_table: Seq<u16>,
}

impl View for FLW1Data {
    type V = FLW1View;

    open spec fn view(&self) -> FLW1View {
        FLW1View {
            node_count: self.node_count,
            ind_count: self.ind_count,
            pad: self._pad,
            nodes: self.nodes@,
            ind_table: self.ind_table@,
        }
    }
}

/// An entry of the FLI1 section.
#[derive(Clone, Copy, Debug, PartialEq, Eq, Structural)]
pub struct FLI1Entry {
    pub id: u16,
    pub _pad: u16,
    pub node_idx: u16,
    pub _pad2: u16,
}

/// The FLI1 section: entry points of the flow graph.
pub struct FLI1Data {
    pub count: u16,
    pub entries: Vec<FLI1Entry>,
}

/// The contents of one section.
pub enum BMGSectionData {
    INF1(INF1Data),
    DAT1(DAT1Data),
    MID1(MID1Data),
    FLW1(FLW1Data),
    FLI1(FLI1Data),
}

pub enum SectionView {
    INF1(INF1View),
    DAT1(Seq<u8>),
    MID1(MID1View),
    FLW1(FLW1View),
    FLI1(u16, Seq<FLI1Entry>),
}

impl View for BMGSectionData {
    type V = SectionView;

    open spec fn view(&self) -> SectionView {
        match self {
            BMGSectionData::INF1(d) => SectionView::INF1(d@),
            BMGSectionData::DAT1(d) => SectionView::DAT1(d.data@),
            BMGSectionData::MID1(d) => SectionView::MID1(d@),
            BMGSectionData::FLW1(d) => SectionView::FLW1(d@),
            BMGSectionData::FLI1(d) => SectionView::FLI1(d.count, d.entries@),
        }
    }
}

/// The INF1 entries read from the chunks of `entry_size` bytes that start
/// at `pos`, at most `remaining` of them, as long as whole chunks remain.
pub open spec fn inf1_entries(sd: Seq<u8>, be: bool, pos: int, es: int, remaining: nat) -> Seq<(u32, Seq<u8>)>
    decreases remaining,
{
    if remaining == 0 || es <= 0 || pos + es > sd.len() {
        Seq::empty()
    } else {
        seq![(spec_u32(sd, pos, be) as u32, sd.subrange(pos + 4, pos + es))]
            + inf1_entries(sd, be, pos + es, es, (remaining - 1) as nat)
    }
}

/// The identifiers in the four-byte chunks from `pos` on.
pub open spec fn mid1_ids(sd: Seq<u8>, be: bool, pos: int) -> Seq<u32>
    decreases sd.len() - pos,
{
    if pos < 0 || pos + 4 > sd.len() {
        Seq::empty()
    } else {
        seq![spec_u32(sd, pos, be) as u32] + mid1_ids(sd, be, pos + 4)
    }
}

/// The flow node that the eight bytes at `pos` describe, if their first byte
/// is a known node type.
pub open spec fn spec_flw1_node(sd: Seq<u8>, be: bool, pos: int) -> Option<FLW1Node> {
    if sd[pos] == 1 {
        Some(FLW1Node::Continuation {
            id: sd[pos],
            doorquery: sd[pos + 1],
            inf1_idx: spec_u16(sd, pos + 2, be) as u16,
            next_node: spec_u16(sd, pos + 4, be) as u16,
            _pad: spec_u16(sd, pos + 6, be) as u16,
        })
    } else if sd[pos] == 2 {
        Some(FLW1Node::Branch {
            id: sd[pos],
            doorquery: sd[pos + 1],
            query_fn: spec_u16(sd, pos + 2, be) as u16,
            param: spec_u16(sd, pos + 4, be) as u16,
            indir_offset: spec_u16(sd, pos + 6, be) as u16,
        })
    } else if sd[pos] == 3 {
        Some(FLW1Node::Event {
            id: sd[pos],
            event_fn: sd[pos + 1],
            indir_idx: spec_u16(sd, pos + 2, be) as u16,
            params: spec_u32(sd, pos + 4, be) as u32,
        })
    } else {
        None
    }
}

/// The flow nodes of the eight-byte chunks from `pos` on, skipping chunks of
/// unknown type, at most `remaining` of them.
pub open spec fn flw1_nodes(sd: Seq<u8>, be: bool, pos: int, remaining: nat) -> Seq<FLW1Node>
    decreases sd.len() - pos,
{
    if remaining == 0 || pos < 0 || pos + 8 > sd.len() {
        Seq::empty()
    } else {
        match spec_flw1_node(sd, be, pos) {
            Some(n) => seq![n] + flw1_nodes(sd, be, pos + 8, (remaining - 1) as nat),
            None => flw1_nodes(sd, be, pos + 8, remaining),
        }
    }
}

/// The 16-bit values of the two-byte chunks from `pos` on, at most
/// `remaining` of them.
pub open spec fn u16_chunks(sd: Seq<u8>, be: bool, pos: int, remaining: nat) -> Seq<u16>
    decreases remaining,
{
    if remaining == 0 || pos < 0 || pos + 2 > sd.len() {
        Seq::empty()
    } else {
        seq![spec_u16(sd, pos, be) as u16] + u16_chunks(sd, be, pos + 2, (remaining - 1) as nat)
    }
}

/// The FLI1 entries of the eight-byte chunks from `pos` on, at most
/// `remaining` of them.
pub open spec fn fli1_entries(sd: Seq<u8>, be: bool, pos: int, remaining: nat) -> Seq<FLI1Entry>
    decreases remaining,
{
    if remaining == 0 || pos < 0 || pos + 8 > sd.len() {
        Seq::empty()
    } else {
        seq![
            FLI1Entry {
                id: spec_u16(sd, pos, be) as u16,
                _pad: spec_u16(sd, pos + 2, be) as u16,
                node_idx: spec_u16(sd, pos + 4, be) as u16,
                _pad2: spec_u16(sd, pos + 6, be) as u16,
            },
        ] + fli1_entries(sd, be, pos + 8, (remaining - 1) as nat)
    }
}

/// The contents of a section of kind `idx` whose body (after the eight-byte
/// section header) is `sd`. `None` where the body is too short for its own
/// header, where an INF1 entry size is 0 or too small for an entry that is
/// read, or where an FLW1 node count would overflow the 16-bit position of
/// the indirection table or that position lies past the body. A slot that
/// no contents are read for (STR1) gives the unknown-section error.
pub open spec fn spec_section_body(sd: Seq<u8>, idx: usize, be: bool) -> Option<Result<SectionView, ParseErrorKind>> {
    if idx == DAT1 {
        Some(Ok(SectionView::DAT1(sd)))
    } else if idx == INF1 || idx == MID1 || idx == FLW1 || idx == FLI1 {
        if sd.len() < 8 {
            None
        } else if idx == INF1 {
            let count = spec_u16(sd, 0, be);
            let es = spec_u16(sd, 2, be);
            if es == 0 || (es < 4 && count > 0 && 8 + es <= sd.len()) {
                None
            } else {
                Some(Ok(SectionView::INF1(INF1View {
                    count: count as u16,
                    entry_size: es as u16,
                    pad: spec_u32(sd, 4, be) as u32,
                    entries: inf1_entries(sd, be, 8, es, count as nat),
                })))
            }
        } else if idx == MID1 {
            Some(Ok(SectionView::MID1(MID1View {
                count: spec_u16(sd, 0, be) as u16,
                format: spec_u16(sd, 2, be) as u16,
                unknown: spec_u32(sd, 4, be) as u32,
                ids: mid1_ids(sd, be, 8),
            })))
        } else if idx == FLW1 {
            let count = spec_u16(sd, 0, be);
            let ind_count = spec_u16(sd, 2, be);
            let istart = 8 + count * 8;
            if istart > 0xFFFF || istart > sd.len() {
                None
            } else {
                Some(Ok(SectionView::FLW1(FLW1View {
                    node_count: count as u16,
                    ind_count: ind_count as u16,
                    pad: spec_u32(sd, 4, be) as u32,
                    nodes: flw1_nodes(sd, be, 8, count as nat),
                    ind_table: u16_chunks(sd, be, istart, ind_count as nat),
                })))
            }
        } else {
            let count = spec_u16(sd, 0, be);
            Some(Ok(SectionView::FLI1(count as u16, fli1_entries(sd, be, 8, count as nat))))
        }
    } else {
        Some(Err(ParseErrorKind::UnknownSectionID))
    }
}

/// Reading the section whose header starts at `offset`: its four identifier
/// bytes must be UTF-8, its size is the 32-bit value after them, and its
/// body runs from `offset + 8` to `offset + size`, cut at the end of the
/// data. `None` where the header runs past the data or the size is smaller
/// than the header.
pub open spec fn spec_parse_section(data: Seq<u8>, offset: int, be: bool) -> Option<Result<SectionView, ParseErrorKind>> {
    if offset < 0 || offset + 4 > data.len() {
        None
    } else if !valid_utf8(data.subrange(offset, offset + 4)) {
        Some(Err(ParseErrorKind::InvalidSectionID))
    } else if offset + 8 > data.len() {
        None
    } else {
        let size = spec_u32(data, offset + 4, be);
        let end = if offset + size < data.len() { offset + size } else { data.len() as int };
        if offset + 8 > end {
            None
        } else {
            match spec_get_idx(decode_utf8(data.subrange(offset, offset + 4))) {
                Some(idx) => spec_section_body(data.subrange(offset + 8, end), idx, be),
                None => Some(Err(ParseErrorKind::UnknownSectionID)),
            }
        }
    }
}

fn read_inf1(sd: &[u8], be: bool) -> (r: Option<INF1Data>)
    requires
        sd@.len() >= 8,
    ensures
        r matches Some(d) ==> spec_section_body(sd@, INF1, be) == Some(Ok::<SectionView, ParseErrorKind>(SectionView::INF1(d@))),
        r is None ==> spec_section_body(sd@, INF1, be) is None,
{
    let count = get_u16_order(sd, 0, be);
    let es = get_u16_order(sd, 2, be);
    let pad = get_u32_order(sd, 4, be);
    if es == 0 || (es < 4 && count > 0 && 8 + (es as usize) <= sd.len()) {
        return None;
    }
    let ghost target = inf1_entries(sd@, be, 8, es as int, count as nat);
    let mut entries: Vec<INF1Entry> = Vec::new();
    let mut pos: usize = 8;
    let mut taken: u16 = 0;
    assert(entries_view(entries@) + target =~= target);
    while taken < count && sd.len() - pos >= es as usize
        invariant
            8 <= pos <= sd@.len(),
            taken <= count,
            es > 0,
            es < 4 ==> (taken == 0 && pos == 8 && !(count > 0 && 8 + es <= sd@.len())),
            target == inf1_entries(sd@, be, 8, es as int, count as nat),
            entries_view(entries@) + inf1_entries(sd@, be, pos as int, es as int, (count - taken) as nat) == target,
        decreases count - taken,
    {
        let off = get_u32_order(sd, pos, be);
        let attributes = copy_range(sd, pos + 4, pos + es as usize);
        let ghost before = entries_view(entries@);
        let ghost rest = inf1_entries(sd@, be, (pos + es) as int, es as int, (count - taken - 1) as nat);
        entries.push(INF1Entry { offset: off, attributes });
        assert(entries_view(entries@) =~= before + seq![(off, sd@.subrange(pos + 4, pos + es))]);
        assert(before + (seq![(off, sd@.subrange(pos + 4, pos + es))] + rest)
            =~= (before + seq![(off, sd@.subrange(pos + 4, pos + es))]) + rest);
        pos = pos + es as usize;
        taken = taken + 1;
    }
    assert(entries_view(entries@) =~= target);
    Some(INF1Data { count, entry_size: es, _pad: pad, entries })
}

fn read_mid1(sd: &[u8], be: bool) -> (r: MID1Data)
    requires
        sd@.len() >= 8,
    ensures
        spec_section_body(sd@, MID1, be) == Some(Ok::<SectionView, ParseErrorKind>(SectionView::MID1(r@))),
{
    let count = get_u16_order(sd, 0, be);
    let format = get_u16_order(sd, 2, be);
    let unknown = get_u32_order(sd, 4, be);
    let ghost target = mid1_ids(sd@, be, 8);
    let mut ids: Vec<u32> = Vec::new();
    let mut pos: usize = 8;
    assert(ids@ + target =~= target);
    while sd.len() - pos >= 4
        invariant
            8 <= pos <= sd@.len(),
            target == mid1_ids(sd@, be, 8),
            ids@ + mid1_ids(sd@, be, pos as int) == target,
        decreases sd@.len() - pos,
    {
        let v = get_u32_order(sd, pos, be);
        let ghost before = ids@;
        let ghost rest = mid1_ids(sd@, be, (pos + 4) as int);
        ids.push(v);
        assert(before + (seq![v] + rest) =~= (before + seq![v]) + rest);
        pos = pos + 4;
    }
    assert(ids@ =~= target);
    MID1Data { count, _format: format, _unknown: unknown, ids }
}

fn read_flw1_node(sd: &[u8], be: bool, pos: usize) -> (r: Option<FLW1Node>)
    requires
        pos + 8 <= sd@.len(),
    ensures
        r == spec_flw1_node(sd@, be, pos as int),
{
    let kind = sd[pos];
    if kind == 1 {
        Some(FLW1Node::Continuation {
            id: kind,
            doorquery: sd[pos + 1],
            inf1_idx: get_u16_order(sd, pos + 2, be),
            next_node: get_u16_order(sd, pos + 4, be),
            _pad: get_u16_order(sd, pos + 6, be),
        })
    } else if kind == 2 {
        Some(FLW1Node::Branch {
            id: kind,
            doorquery: sd[pos + 1],
            query_fn: get_u16_order(sd, pos + 2, be),
            param: get_u16_order(sd, pos + 4, be),
            indir_offset: get_u16_order(sd, pos + 6, be),
        })
    } else if kind == 3 {
        Some(FLW1Node::Event {
            id: kind,
            event_fn: sd[pos + 1],
            indir_idx: get_u16_order(sd, pos + 2, be),
            params: get_u32_order(sd, pos + 4, be),
        })
    } else {
        None
    }
}

fn read_flw1(sd: &[u8], be: bool) -> (r: Option<FLW1Data>)
    requires
        sd@.len() >= 8,
    ensures
        r matches Some(d) ==> spec_section_body(sd@, FLW1, be) == Some(Ok::<SectionView, ParseErrorKind>(SectionView::FLW1(d@))),
        r is None ==> spec_section_body(sd@, FLW1, be) is None,
{
    let count = get_u16_order(sd, 0, be);
    let ind_count = get_u16_order(sd, 2, be);
    let pad = get_u32_order(sd, 4, be);
    if count >= 8191 {
        return None;
    }
    let istart: usize = 8 + 8 * count as usize;
    if istart > sd.len() {
        return None;
    }
    let ghost node_target = flw1_nodes(sd@, be, 8, count as nat);
    let mut nodes: Vec<FLW1Node> = Vec::new();
    let mut pos: usize = 8;
    let mut taken: u16 = 0;
    assert(nodes@ + node_target =~= node_target);
    while taken < count && sd.len() - pos >= 8
        invariant
            8 <= pos <= sd@.len(),
            taken <= count,
            node_target == flw1_nodes(sd@, be, 8, count as nat),
            nodes@ + flw1_nodes(sd@, be, pos as int, (count - taken) as nat) == node_target,
        decreases sd@.len() - pos,
    {
        let ghost before = nodes@;
        match read_flw1_node(sd, be, pos) {
            Some(n) => {
                let ghost rest = flw1_nodes(sd@, be, (pos + 8) as int, (count - taken - 1) as nat);
                nodes.push(n);
                assert(before + (seq![n] + rest) =~= (before + seq![n]) + rest);
                taken = taken + 1;
            },
            None => {},
        }
        pos = pos + 8;
    }
    assert(nodes@ =~= node_target);
    let ghost ind_target = u16_chunks(sd@, be, istart as int, ind_count as nat);
    let mut table: Vec<u16> = Vec::new();
    let mut ipos: usize = istart;
    let mut itaken: u16 = 0;
    assert(table@ + ind_target =~= ind_target);
    while itaken < ind_count && sd.len() - ipos >= 2
        invariant
            istart <= ipos <= sd@.len(),
            itaken <= ind_count,
            ind_target == u16_chunks(sd@, be, istart as int, ind_count as nat),
            table@ + u16_chunks(sd@, be, ipos as int, (ind_count - itaken) as nat) == ind_target,
        decreases ind_count - itaken,
    {
        let v = get_u16_order(sd, ipos, be);
        let ghost before = table@;
        let ghost rest = u16_chunks(sd@, be, (ipos + 2) as int, (ind_count - itaken - 1) as nat);
        table.push(v);
        assert(before + (seq![v] + rest) =~= (before + seq![v]) + rest);
        ipos = ipos + 2;
        itaken = itaken + 1;
    }
    assert(table@ =~= ind_target);
    Some(FLW1Data { node_count: count, ind_count, _pad: pad, nodes, ind_table: table })
}

fn read_fli1(sd: &[u8], be: bool) -> (r: FLI1Data)
    requires
        sd@.len() >= 8,
    ensures
        spec_section_body(sd@, FLI1, be) == Some(Ok::<SectionView, ParseErrorKind>(SectionView::FLI1(r.count, r.entries@))),
{
    let count = get_u16_order(sd, 0, be);
    let ghost target = fli1_entries(sd@, be, 8, count as nat);
    let mut entries: Vec<FLI1Entry> = Vec::new();
    let mut pos: usize = 8;
    let mut taken: u16 = 0;
    assert(entries@ + target =~= target);
    while taken < count && sd.len() - pos >= 8
        invariant
            8 <= pos <= sd@.len(),
            taken <= count,
            target == fli1_entries(sd@, be, 8, count as nat),
            entries@ + fli1_entries(sd@, be, pos as int, (count - taken) as nat) == target,
        decreases count - taken,
    {
        let e = FLI1Entry {
            id: get_u16_order(sd, pos, be),
            _pad: get_u16_order(sd, pos + 2, be),
            node_idx: get_u16_order(sd, pos + 4, be),
            _pad2: get_u16_order(sd, pos + 6, be),
        };
        let ghost before = entries@;
        let ghost rest = fli1_entries(sd@, be, (pos + 8) as int, (count - taken - 1) as nat);
        entries.push(e);
        assert(before + (seq![e] + rest) =~= (before + seq![e]) + rest);
        pos = pos + 8;
        taken = taken + 1;
    }
    assert(entries@ =~= target);
    FLI1Data { count, entries }
}

/// Reads the body `sd` of a section of kind `idx`.
fn read_section_body(sd: &[u8], idx: usize, be: bool) -> (r: Option<Result<BMGSectionData, BMGParseError>>)
    ensures
        outcome_view(r) == spec_section_body(sd@, idx, be),
{
    if idx == DAT1 {
        let bytes = copy_range(sd, 0, sd.len());
        assert(bytes@ =~= sd@);
        return Some(Ok(BMGSectionData::DAT1(DAT1Data { data: bytes })));
    }
    if !(idx == INF1 || idx == MID1 || idx == FLW1 || idx == FLI1) {
        return Some(Err(BMGParseError::UnknownSectionID));
    }
    if sd.len() < 8 {
        return None;
    }
    if idx == INF1 {
        match read_inf1(sd, be) {
            Some(d) => Some(Ok(BMGSectionData::INF1(d))),
            None => None,
        }
    } else if idx == MID1 {
        Some(Ok(BMGSectionData::MID1(read_mid1(sd, be))))
    } else if idx == FLW1 {
        match read_flw1(sd, be) {
            Some(d) => Some(Ok(BMGSectionData::FLW1(d))),
            None => None,
        }
    } else {
        Some(Ok(BMGSectionData::FLI1(read_fli1(sd, be))))
    }
}


/// Reads the section whose header starts at `offset` (see
/// [`spec_parse_section`]).
pub fn parse_section(data: &[u8], offset: usize, big_endian: bool) -> (r: Option<Result<BMGSectionData, BMGParseError>>)
    ensures
        outcome_view(r) == spec_parse_section(data@, offset as int, big_endian),
{
    if offset > data.len() || data.len() - offset < 4 {
        return None;
    }
    let type_str = match str_from_utf8(&data[offset..offset + 4]) {
        Ok(s) => s,
        Err(e) => {
            return Some(Err(BMGParseError::InvalidSectionID(e)));
        },
    };
    if data.len() - offset < 8 {
        return None;
    }
    let size = get_u32_order(data, offset + 4, big_endian);
    let end: usize = if (size as usize) < data.len() - offset { offset + size as usize } else { data.len() };
    if offset + 8 > end {
        return None;
    }
    match get_idx(type_str) {
        Some(idx) => read_section_body(&data[offset + 8..end], idx, big_endian),
        None => Some(Err(BMGParseError::UnknownSectionID)),
    }
}

// ---------------------------------------------------------------------------
// Header and whole file
// ---------------------------------------------------------------------------

/// The BMG file header.
pub struct BMGHeader {
    pub magic: String,
    pub filesize: u32,
    pub sections_cnt: u32,
    pub encoding: u8,
}

pub struct BMGHeaderView {
    pub magic: Seq<char>,
    pub filesize: u32,
    pub sections_cnt: u32,
    pub encoding: u8,
}

impl View for BMGHeader {
    type V = BMGHeaderView;

    open spec fn view(&self) -> BMGHeaderView {
        BMGHeaderView {
            magic: self.magic@,
            filesize: self.filesize,
            sections_cnt: self.sections_cnt,
            encoding: self.encoding,
        }
    }
}

/// Reading the header: eight UTF-8 magic bytes, the file size at 8, the
/// section count at 0x0C and the encoding byte at 0x10. `None` where the
/// data is too short for it.
pub open spec fn spec_parse_header(data: Seq<u8>, be: bool) -> Option<Result<BMGHeaderView, ParseErrorKind>> {
    if data.len() < 8 {
        None
    } else if !valid_utf8(data.subrange(0, 8)) {
        Some(Err(ParseErrorKind::InvalidSectionID))
    } else if data.len() < 0x11 {
        None
    } else {
        Some(Ok(BMGHeaderView {
            magic: decode_utf8(data.subrange(0, 8)),
            filesize: spec_u32(data, 8, be) as u32,
            sections_cnt: spec_u32(data, 0x0C, be) as u32,
            encoding: data[0x10],
        }))
    }
}

/// Reads the file header (see [`spec_parse_header`]).
pub fn parse_header(data: &[u8], big_endian: bool) -> (r: Option<Result<BMGHeader, BMGParseError>>)
    ensures
        outcome_view(r) == spec_parse_header(data@, big_endian),
{
    if data.len() < 8 {
        return None;
    }
    let magic = match str_from_utf8(&data[0..8]) {
        Ok(s) => s.to_owned(),
        Err(e) => {
            return Some(Err(BMGParseError::InvalidSectionID(e)));
        },
    };
    if data.len() < 0x11 {
        return None;
    }
    Some(Ok(BMGHeader {
        magic,
        filesize: get_u32_order(data, 8, big_endian),
        sections_cnt: get_u32_order(data, 0x0C, big_endian),
        encoding: data[0x10],
    }))
}

/// A section as found in the file.
pub struct BMGSection {
    pub section_type: String,
    pub size: u32,
    pub range_start: usize,
    pub range_end: usize,
    pub data: BMGSectionData,
}

pub struct SectionRecord {
    pub section_type: Seq<char>,
    pub size: u32,
    pub range_start: int,
    pub range_end: int,
    pub data: SectionView,
}

impl View for BMGSection {
    type V = SectionRecord;

    open spec fn view(&self) -> SectionRecord {
        SectionRecord {
            section_type: self.section_type@,
            size: self.size,
            range_start: self.range_start as int,
            range_end: self.range_end as int,
            data: self.data@,
        }
    }
}

pub open spec fn section_slot_view(s: Option<BMGSection>) -> Option<SectionRecord> {
    match s {
        Some(x) => Some(x@),
        None => None,
    }
}

pub open spec fn sections_view(s: Seq<Option<BMGSection>>) -> Seq<Option<SectionRecord>> {
    s.map_values(|o: Option<BMGSection>| section_slot_view(o))
}

/// No section found yet: one empty slot per section kind.
pub open spec fn empty_sections() -> Seq<Option<SectionRecord>> {
    Seq::new(SECTION_COUNT as nat, |i: int| None)
}

/// Walking the sections: from `offset`, at most `remaining` more sections,
/// each eight-byte header followed by `size - 8` body bytes; the next
/// section starts `size` bytes further. A section whose identifier names a
/// known kind has its body read and fills that kind's slot; others are
/// skipped. The walk ends early once fewer than five bytes remain at the
/// offset.
pub open spec fn spec_walk(
    data: Seq<u8>,
    be: bool,
    offset: int,
    remaining: nat,
    secs: Seq<Option<SectionRecord>>,
) -> Option<Result<Seq<Option<SectionRecord>>, ParseErrorKind>>
    decreases remaining,
{
    if remaining == 0 || offset < 0 || offset + 4 >= data.len() {
        Some(Ok(secs))
    } else if !valid_utf8(data.subrange(offset, offset + 4)) {
        Some(Err(ParseErrorKind::InvalidSectionID))
    } else if offset + 8 > data.len() {
        None
    } else {
        let t = decode_utf8(data.subrange(offset, offset + 4));
        let size = spec_u32(data, offset + 4, be);
        let next = offset + size;
        match spec_get_idx(t) {
            None => spec_walk(data, be, next, (remaining - 1) as nat, secs),
            Some(idx) => match spec_parse_section(data, offset, be) {
                None => None,
                Some(Err(e)) => Some(Err(e)),
                Some(Ok(sv)) => spec_walk(
                    data,
                    be,
                    next,
                    (remaining - 1) as nat,
                    secs.update(
                        idx as int,
                        Some(SectionRecord {
                            section_type: t,
                            size: size as u32,
                            range_start: offset + 8,
                            range_end: if next < data.len() { next } else { data.len() as int },
                            data: sv,
                        }),
                    ),
                ),
            },
        }
    }
}

/// A parsed BMG file: its header and one slot per section kind.
pub struct BMGData {
    pub header: BMGHeader,
    pub sections: Vec<Option<BMGSection>>,
}

pub struct BMGDataView {
    pub header: BMGHeaderView,
    pub sections: Seq<Option<SectionRecord>>,
}

impl View for BMGData {
    type V = BMGDataView;

    open spec fn view(&self) -> BMGDataView {
        BMGDataView { header: self.header@, sections: sections_view(self.sections@) }
    }
}

/// Reading a whole BMG file: the header, then the walk over the sections
/// from offset 0x20.
pub open spec fn spec_parse_data(data: Seq<u8>, be: bool) -> Option<Result<BMGDataView, ParseErrorKind>> {
    match spec_parse_header(data, be) {
        None => None,
        Some(Err(e)) => Some(Err(e)),
        Some(Ok(h)) => match spec_walk(data, be, 0x20, h.sections_cnt as nat, empty_sections()) {
            None => None,
            Some(Err(e)) => Some(Err(e)),
            Some(Ok(secs)) => Some(Ok(BMGDataView { header: h, sections: secs })),
        },
    }
}

/// The contents that stand in for a file that could not be read: an empty
/// header and no sections.
pub open spec fn empty_data() -> BMGDataView {
    BMGDataView {
        header: BMGHeaderView { magic: Seq::empty(), filesize: 0, sections_cnt: 0, encoding: 0 },
        sections: empty_sections(),
    }
}

/// What a parser holds after reading `data`: the parsed file, or the empty
/// contents when reading reported an error. `None` where reading fails
/// without an error (see [`spec_parse_data`]).
pub open spec fn spec_new_data(data: Seq<u8>, be: bool) -> Option<BMGDataView> {
    match spec_parse_data(data, be) {
        None => None,
        Some(Ok(d)) => Some(d),
        Some(Err(_)) => Some(empty_data()),
    }
}

fn empty_section_slots() -> (r: Vec<Option<BMGSection>>)
    ensures
        sections_view(r@) == empty_sections(),
        r@.len() == SECTION_COUNT,
{
    let mut r: Vec<Option<BMGSection>> = Vec::new();
    let mut i: usize = 0;
    while i < SECTION_COUNT
        invariant
            i <= SECTION_COUNT,
            r@.len() == i,
            forall|j: int| 0 <= j < i ==> r@[j] is None,
        decreases SECTION_COUNT - i,
    {
        r.push(None);
        i = i + 1;
    }
    assert(sections_view(r@) =~= empty_sections());
    r
}

/// One step of the section walk at `offset` with `remaining > 0` steps
/// left: `Ok(Some(next))` to go on at `next`, `Ok(None)` when the walk is
/// complete.
fn walk_step(
    data: &[u8],
    be: bool,
    offset: usize,
    Ghost(remaining): Ghost<nat>,
    sections: &mut Vec<Option<BMGSection>>,
) -> (r: Option<Result<Option<usize>, BMGParseError>>)
    requires
        remaining > 0,
        old(sections)@.len() == SECTION_COUNT,
    ensures
        final(sections)@.len() == SECTION_COUNT,
        ({
            let w = spec_walk(data@, be, offset as int, remaining, sections_view(old(sections)@));
            match r {
                None => w is None,
                Some(Err(e)) => w == Some(Err::<Seq<Option<SectionRecord>>, ParseErrorKind>(e@)),
                Some(Ok(None)) => w == Some(Ok::<Seq<Option<SectionRecord>>, ParseErrorKind>(sections_view(final(sections)@))),
                Some(Ok(Some(n))) => w == spec_walk(data@, be, n as int, (remaining - 1) as nat, sections_view(final(sections)@)),
            }
        }),
{
    if offset >= data.len() || data.len() - offset <= 4 {
        return Some(Ok(None));
    }
    let type_str = match str_from_utf8(&data[offset..offset + 4]) {
        Ok(s) => s,
        Err(e) => {
            return Some(Err(BMGParseError::InvalidSectionID(e)));
        },
    };
    if data.len() - offset < 8 {
        return None;
    }
    let size = get_u32_order(data, offset + 4, be);
    let range_end: usize = if (size as usize) < data.len() - offset { offset + size as usize } else { data.len() };
    match get_idx(type_str) {
        None => {},
        Some(idx) => {
            match parse_section(data, offset, be) {
                None => {
                    return None;
                },
                Some(Err(e)) => {
                    return Some(Err(e));
                },
                Some(Ok(sd)) => {
                    let section = BMGSection {
                        section_type: type_str.to_owned(),
                        size,
                        range_start: offset + 8,
                        range_end,
                        data: sd,
                    };
                    let ghost sv = section@;
                    let ghost before = sections_view(sections@);
                    sections.set(idx, Some(section));
                    assert(sections_view(sections@) =~= before.update(idx as int, Some(sv)));
                },
            }
        },
    }
    match offset.checked_add(size as usize) {
        Some(n) => Some(Ok(Some(n))),
        None => {
            assert(spec_walk(data@, be, offset + size, (remaining - 1) as nat, sections_view(sections@))
                == Some(Ok::<Seq<Option<SectionRecord>>, ParseErrorKind>(sections_view(sections@))));
            Some(Ok(None))
        },
    }
}

/// Reads a whole BMG file (see [`spec_parse_data`]); `None` where reading
/// fails without an error.
pub fn parse_data(data: &[u8], big_endian: bool) -> (r: Option<Result<BMGData, BMGParseError>>)
    ensures
        outcome_view(r) == spec_parse_data(data@, big_endian),
{
    let header = match parse_header(data, big_endian) {
        None => {
            return None;
        },
        Some(Err(e)) => {
            return Some(Err(e));
        },
        Some(Ok(h)) => h,
    };
    let mut sections = empty_section_slots();
    let mut offset: usize = 0x20;
    let mut i: u32 = 0;
    let ghost target = spec_walk(data@, big_endian, 0x20, header.sections_cnt as nat, empty_sections());
    while i < header.sections_cnt
        invariant
            i <= header.sections_cnt,
            sections@.len() == SECTION_COUNT,
            spec_parse_header(data@, big_endian) == Some(Ok::<BMGHeaderView, ParseErrorKind>(header@)),
            target == spec_walk(data@, big_endian, 0x20, header.sections_cnt as nat, empty_sections()),
            target == spec_walk(data@, big_endian, offset as int, (header.sections_cnt - i) as nat, sections_view(sections@)),
        decreases header.sections_cnt - i,
    {
        match walk_step(data, big_endian, offset, Ghost((header.sections_cnt - i) as nat), &mut sections) {
            None => {
                return None;
            },
            Some(Err(e)) => {
                return Some(Err(e));
            },
            Some(Ok(None)) => {
                return Some(Ok(BMGData { header, sections }));
            },
            Some(Ok(Some(next))) => {
                offset = next;
            },
        }
        i = i + 1;
    }
    Some(Ok(BMGData { header, sections }))
}

// ---------------------------------------------------------------------------
// The parser
// ---------------------------------------------------------------------------

/// A BMG file read into memory.
pub struct BMGRawParser {
    _data: Vec<u8>,
    data_parsed: BMGData,
}

impl View for BMGRawParser {
    type V = BMGDataView;

    closed spec fn view(&self) -> BMGDataView {
        self.data_parsed@
    }
}

/// The message at index `idx` of the message table of `d`: its text read
/// from DAT1 at the offset in its INF1 entry, its INF1 attributes, and as
/// identifier its MID1 entry if there is a MID1 section, else the
/// identifier in its attributes, else `idx + 1`. A file without INF1 or
/// DAT1 gives the default message. `None` where the index lies outside the
/// table or the MID1 identifiers, where the text cannot be read (see
/// [`spec_msg_at`]), or where the text data is too large to decode.
pub open spec fn spec_get_msg(d: BMGDataView, idx: int) -> Option<SingleView> {
    match d.sections[INF1 as int] {
        Some(SectionRecord { data: SectionView::INF1(inf1), .. }) => match d.sections[DAT1 as int] {
            Some(SectionRecord { data: SectionView::DAT1(bytes), .. }) => {
                if idx < 0 || idx >= inf1.entries.len() || bytes.len() > usize::MAX / 4 {
                    None
                } else {
                    let entry = inf1.entries[idx];
                    match spec_msg_at(bytes, entry.0 as int, d.header.encoding) {
                        None => None,
                        Some(text) => {
                            let id: Option<usize> = match d.sections[MID1 as int] {
                                Some(SectionRecord { data: SectionView::MID1(mid1), .. }) => {
                                    if idx >= mid1.ids.len() {
                                        None
                                    } else {
                                        Some(mid1.ids[idx] as usize)
                                    }
                                },
                                _ => match spec_message_id(entry.1) {
                                    Some(v) => Some(v as usize),
                                    None => Some((idx + 1) as usize),
                                },
                            };
                            match id {
                                None => None,
                                Some(id) => Some(SingleView { text, attribs: entry.1, id }),
                            }
                        },
                    }
                }
            },
            _ => Some(default_single()),
        },
        _ => Some(default_single()),
    }
}

/// The messages at indices `from..count` of the message table of `d`.
pub open spec fn spec_msgs_from(d: BMGDataView, from: int, count: int) -> Option<Seq<SingleView>>
    decreases count - from,
{
    if from >= count {
        Some(Seq::empty())
    } else {
        match spec_get_msg(d, from) {
            None => None,
            Some(m) => match spec_msgs_from(d, from + 1, count) {
                None => None,
                Some(rest) => Some(seq![m] + rest),
            },
        }
    }
}

/// All messages of `d`: one per INF1 entry count, in order; none when the
/// file has no INF1 section.
pub open spec fn spec_all_messages(d: BMGDataView) -> Option<Seq<SingleView>> {
    match d.sections[INF1 as int] {
        Some(SectionRecord { data: SectionView::INF1(inf1), .. }) => spec_msgs_from(d, 0, inf1.count as int),
        _ => Some(Seq::empty()),
    }
}

impl BMGRawParser {
    /// The parser holds one slot per section kind.
    pub closed spec fn wf(&self) -> bool {
        self.data_parsed.sections@.len() == SECTION_COUNT
    }

    /// The bytes the parser was built from.
    pub closed spec fn raw_bytes(&self) -> Seq<u8> {
        self._data@
    }

    fn from_parsed(data: Vec<u8>, parsed: Option<Result<BMGData, BMGParseError>>) -> (r: Option<BMGRawParser>)
        requires
            outcome_view(parsed) matches Some(Ok(d)) ==> d.sections.len() == SECTION_COUNT,
        ensures
            r is None <==> parsed is None,
            r matches Some(p) ==> p.wf() && p.raw_bytes() == data@ && match outcome_view(parsed) {
                Some(Ok(d)) => p@ == d,
                _ => p@ == empty_data(),
            },
    {
        match parsed {
            None => None,
            Some(Ok(d)) => Some(BMGRawParser { _data: data, data_parsed: d }),
            Some(Err(_)) => {
                let header = BMGHeader { magic: String::new(), filesize: 0, sections_cnt: 0, encoding: 0 };
                let parsed = BMGData { header, sections: empty_section_slots() };
                Some(BMGRawParser { _data: data, data_parsed: parsed })
            },
        }
    }

    /// Reads a BMG file from its bytes, in the given byte order. A file
    /// that reports an error is held as empty contents (see
    /// [`spec_new_data`]); `None` where the layout is malformed so that
    /// reading it fails without an error.
    pub fn try_new(data: Vec<u8>, big_endian: bool) -> (r: Option<BMGRawParser>)
        ensures
            r is None <==> spec_new_data(data@, big_endian) is None,
            r matches Some(p) ==> p.wf() && p.raw_bytes() == data@ && Some(p@) == spec_new_data(data@, big_endian),
    {
        let parsed = parse_data(data.as_slice(), big_endian);
        proof {
            if let Some(Ok(d)) = outcome_view(parsed) {
                lemma_walk_keeps_slots(data@, big_endian, 0x20, d.header.sections_cnt as nat, empty_sections());
            }
        }
        BMGRawParser::from_parsed(data, parsed)
    }

    /// Reads a BMG file from its bytes, in the given byte order (see
    /// [`BMGRawParser::try_new`]).
    pub fn new(data: Vec<u8>, big_endian: bool) -> (r: BMGRawParser)
        requires
            spec_new_data(data@, big_endian) is Some,
        ensures
            r.wf(),
            r.raw_bytes() == data@,
            Some(r@) == spec_new_data(data@, big_endian),
    {
        match BMGRawParser::try_new(data, big_endian) {
            Some(p) => p,
            None => {
                proof {
                    assert(false);
                }
                BMGRawParser::empty()
            },
        }
    }

    fn empty() -> (r: BMGRawParser)
        ensures
            r.wf(),
            r@ == empty_data(),
    {
        let header = BMGHeader { magic: String::new(), filesize: 0, sections_cnt: 0, encoding: 0 };
        BMGRawParser { _data: Vec::new(), data_parsed: BMGData { header, sections: empty_section_slots() } }
    }

    /// The file header.
    pub fn get_header(&self) -> (r: &BMGHeader)
        ensures
            r@ == self@.header,
    {
        &self.data_parsed.header
    }

    /// The section slots, one per section kind.
    pub fn get_sections(&self) -> (r: &Vec<Option<BMGSection>>)
        ensures
            sections_view(r@) == self@.sections,
            self.wf() ==> r@.len() == SECTION_COUNT,
    {
        &self.data_parsed.sections
    }

    /// The contents of the section in slot `idx`, if that section was found.
    pub fn get_section(&self, idx: usize) -> (r: Option<&BMGSectionData>)
        requires
            self.wf(),
            idx < SECTION_COUNT,
        ensures
            match self@.sections[idx as int] {
                Some(rec) => r matches Some(d) && d@ == rec.data,
                None => r is None,
            },
    {
        match &self.data_parsed.sections[idx] {
            Some(section) => Some(&section.data),
            None => None,
        }
    }

    /// The encoding that the header's encoding byte selects.
    pub fn get_encoding(&self) -> (r: TextEncoding)
        ensures
            r == spec_encoding_of(self@.header.encoding),
    {
        encoding_of(self.data_parsed.header.encoding)
    }

    /// The message at index `idx` of the message table, or `None` where
    /// reading it fails (see [`spec_get_msg`]).
    pub fn try_get_msg(&self, idx: usize) -> (r: Option<MessageSingleLang>)
        requires
            self.wf(),
        ensures
            r is None <==> spec_get_msg(self@, idx as int) is None,
            r matches Some(m) ==> spec_get_msg(self@, idx as int) == Some(m@),
    {
        let inf1 = match self.get_section(INF1) {
            Some(BMGSectionData::INF1(inf1)) => inf1,
            _ => {
                return Some(MessageSingleLang::new_default());
            },
        };
        let dat1 = match self.get_section(DAT1) {
            Some(BMGSectionData::DAT1(dat1)) => dat1,
            _ => {
                return Some(MessageSingleLang::new_default());
            },
        };
        if idx >= inf1.entries.len() || dat1.data.len() > usize::MAX / 4 {
            return None;
        }
        let entry = &inf1.entries[idx];
        let text = match dat1.get_msg_at(entry.offset as usize, self.data_parsed.header.encoding) {
            Some(t) => t,
            None => {
                return None;
            },
        };
        let attribs = MessageAttributes { payload: copy_range(entry.attributes.as_slice(), 0, entry.attributes.len()) };
        assert(attribs.payload@ =~= entry.attributes@);
        let id: usize = match self.get_section(MID1) {
            Some(BMGSectionData::MID1(mid1)) => {
                if idx >= mid1.ids.len() {
                    return None;
                }
                mid1.ids[idx] as usize
            },
            _ => match attribs.get_message_id() {
                Some(v) => v as usize,
                None => idx + 1,
            },
        };
        Some(MessageSingleLang { id, attribs, text })
    }

    /// The message at index `idx` of the message table (see
    /// [`spec_get_msg`]).
    pub fn get_msg(&self, idx: usize) -> (r: MessageSingleLang)
        requires
            self.wf(),
            spec_get_msg(self@, idx as int) is Some,
        ensures
            spec_get_msg(self@, idx as int) == Some(r@),
    {
        match self.try_get_msg(idx) {
            Some(m) => m,
            None => {
                proof {
                    assert(false);
                }
                MessageSingleLang::new_default()
            },
        }
    }

    /// All messages, one per INF1 entry count; `None` where reading one of
    /// them fails.
    pub fn try_get_all_messages(&self) -> (r: Option<Vec<MessageSingleLang>>)
        requires
            self.wf(),
        ensures
            r is None <==> spec_all_messages(self@) is None,
            r matches Some(v) ==> spec_all_messages(self@) == Some(v@.map_values(|m: MessageSingleLang| m@)),
    {
        let count = match self.get_section(INF1) {
            Some(BMGSectionData::INF1(inf1)) => inf1.count,
            _ => {
                let empty: Vec<MessageSingleLang> = Vec::new();
                assert(empty@.map_values(|m: MessageSingleLang| m@) =~= Seq::<SingleView>::empty());
                return Some(empty);
            },
        };
        let ghost target = spec_msgs_from(self@, 0, count as int);
        assert(target == spec_all_messages(self@));
        let mut msgs: Vec<MessageSingleLang> = Vec::new();
        let mut i: u16 = 0;
        assert(msgs@.map_values(|m: MessageSingleLang| m@) =~= Seq::<SingleView>::empty());
        while i < count
            invariant
                self.wf(),
                i <= count,
                target == spec_msgs_from(self@, 0, count as int),
                target == spec_all_messages(self@),
                target == match spec_msgs_from(self@, i as int, count as int) {
                    None => None,
                    Some(rest) => Some(msgs@.map_values(|m: MessageSingleLang| m@) + rest),
                },
            decreases count - i,
        {
            let m = match self.try_get_msg(i as usize) {
                Some(m) => m,
                None => {
                    assert(spec_msgs_from(self@, i as int, count as int) is None);
                    return None;
                },
            };
            let ghost before = msgs@.map_values(|m: MessageSingleLang| m@);
            let ghost mv = m@;
            msgs.push(m);
            assert(msgs@.map_values(|m: MessageSingleLang| m@) =~= before + seq![mv]);
            proof {
                if let Some(rest) = spec_msgs_from(self@, i + 1, count as int) {
                    assert(before + (seq![mv] + rest) =~= (before + seq![mv]) + rest);
                }
            }
            i = i + 1;
        }
        assert(msgs@.map_values(|m: MessageSingleLang| m@) + Seq::<SingleView>::empty()
            =~= msgs@.map_values(|m: MessageSingleLang| m@));
        Some(msgs)
    }
}

/// The walk fills slots but never adds or removes one.
pub proof fn lemma_walk_keeps_slots(
    data: Seq<u8>,
    be: bool,
    offset: int,
    remaining: nat,
    secs: Seq<Option<SectionRecord>>,
)
    requires
        secs.len() == SECTION_COUNT,
    ensures
        spec_walk(data, be, offset, remaining, secs) matches Some(Ok(r)) ==> r.len() == SECTION_COUNT,
    decreases remaining,
{
    if remaining == 0 || offset < 0 || offset + 4 >= data.len() {
    } else if !valid_utf8(data.subrange(offset, offset + 4)) || offset + 8 > data.len() {
    } else {
        let t = decode_utf8(data.subrange(offset, offset + 4));
        let size = spec_u32(data, offset + 4, be);
        let next = offset + size;
        match spec_get_idx(t) {
            None => lemma_walk_keeps_slots(data, be, next, (remaining - 1) as nat, secs),
            Some(idx) => match spec_parse_section(data, offset, be) {
                Some(Ok(sv)) => lemma_walk_keeps_slots(
                    data,
                    be,
                    next,
                    (remaining - 1) as nat,
                    secs.update(
                        idx as int,
                        Some(SectionRecord {
                            section_type: t,
                            size: size as u32,
                            range_start: offset + 8,
                            range_end: if next < data.len() { next } else { data.len() as int },
                            data: sv,
                        }),
                    ),
                ),
                _ => {},
            },
        }
    }
}


/// The slot that contents of a section belong in.
pub open spec fn slot_of(v: SectionView) -> usize {
    match v {
        SectionView::INF1(_) => INF1,
        SectionView::DAT1(_) => DAT1,
        SectionView::MID1(_) => MID1,
        SectionView::FLW1(_) => FLW1,
        SectionView::FLI1(_, _) => FLI1,
    }
}

/// Whether every filled slot holds a section of its own kind, named by its
/// identifier.
pub open spec fn slots_consistent(secs: Seq<Option<SectionRecord>>) -> bool {
    forall|k: int|
        0 <= k < secs.len() ==> (#[trigger] secs[k] matches Some(rec) ==> slot_of(rec.data) == k
            && spec_get_idx(rec.section_type) == Some(k as usize))
}

proof fn lemma_body_slot(sd: Seq<u8>, idx: usize, be: bool)
    ensures
        spec_section_body(sd, idx, be) matches Some(Ok(v)) ==> slot_of(v) == idx,
{
}

proof fn lemma_walk_consistent(
    data: Seq<u8>,
    be: bool,
    offset: int,
    remaining: nat,
    secs: Seq<Option<SectionRecord>>,
)
    requires
        secs.len() == SECTION_COUNT,
        slots_consistent(secs),
    ensures
        spec_walk(data, be, offset, remaining, secs) matches Some(Ok(r)) ==> slots_consistent(r),
    decreases remaining,
{
    if remaining == 0 || offset < 0 || offset + 4 >= data.len() {
    } else if !valid_utf8(data.subrange(offset, offset + 4)) || offset + 8 > data.len() {
    } else {
        let t = decode_utf8(data.subrange(offset, offset + 4));
        let size = spec_u32(data, offset + 4, be);
        let next = offset + size;
        match spec_get_idx(t) {
            None => lemma_walk_consistent(data, be, next, (remaining - 1) as nat, secs),
            Some(idx) => match spec_parse_section(data, offset, be) {
                Some(Ok(sv)) => {
                    let end = if next < data.len() { next } else { data.len() as int };
                    lemma_body_slot(data.subrange(offset + 8, end), idx, be);
                    let rec = SectionRecord {
                        section_type: t,
                        size: size as u32,
                        range_start: offset + 8,
                        range_end: end,
                        data: sv,
                    };
                    let s2 = secs.update(idx as int, Some(rec));
                    assert(slots_consistent(s2)) by {
                        assert forall|k: int| 0 <= k < s2.len() implies (#[trigger] s2[k] matches Some(r)
                            ==> slot_of(r.data) == k && spec_get_idx(r.section_type) == Some(k as usize)) by {
                            if k != idx {
                                assert(s2[k] == secs[k]);
                            }
                        }
                    }
                    lemma_walk_consistent(data, be, next, (remaining - 1) as nat, s2);
                },
                _ => {},
            },
        }
    }
}

/// Every section a parsed file holds stands in the slot of its own kind:
/// the INF1 slot holds INF1 contents read from a section named `INF1`, and
/// so on for DAT1, MID1, FLW1 and FLI1; the STR1 slot stays empty.
pub proof fn law_sections_in_their_slots(data: Seq<u8>, be: bool)
    ensures
        spec_new_data(data, be) matches Some(d) ==> d.sections.len() == SECTION_COUNT && slots_consistent(
            d.sections,
        ) && d.sections[STR1 as int] is None,
{
    assert(slots_consistent(empty_sections()));
    if let Some(Ok(h)) = spec_parse_header(data, be) {
        lemma_walk_keeps_slots(data, be, 0x20, h.sections_cnt as nat, empty_sections());
        lemma_walk_consistent(data, be, 0x20, h.sections_cnt as nat, empty_sections());
    }
    if let Some(d) = spec_new_data(data, be) {
        if let Some(rec) = d.sections[STR1 as int] {
            assert(slot_of(rec.data) != STR1);
        }
    }
}

proof fn lemma_msgs_from(d: BMGDataView, from: int, count: int)
    requires
        from <= count,
    ensures
        spec_msgs_from(d, from, count) matches Some(ms) ==> ms.len() == count - from && forall|i: int|
            0 <= i < count - from ==> spec_get_msg(d, from + i) == Some(#[trigger] ms[i]),
        spec_msgs_from(d, from, count) is None <==> exists|i: int| from <= i < count && #[trigger] spec_get_msg(d, i) is None,
    decreases count - from,
{
    if from < count {
        lemma_msgs_from(d, from + 1, count);
        if let Some(ms) = spec_msgs_from(d, from, count) {
            assert forall|i: int| 0 <= i < count - from implies spec_get_msg(d, from + i) == Some(#[trigger] ms[i]) by {
                if i > 0 {
                    let rest = spec_msgs_from(d, from + 1, count).unwrap();
                    assert(ms[i] == rest[i - 1]);
                }
            }
        }
        if spec_get_msg(d, from) is None {
            assert(spec_get_msg(d, from) is None);
        }
    }
}

/// Listing all messages gives, at each position `i` below the INF1 entry
/// count, the message that reading index `i` gives; the listing fails
/// exactly when reading one of those indices fails.
pub proof fn law_all_messages_read_one_by_one(d: BMGDataView)
    ensures
        match d.sections[INF1 as int] {
            Some(SectionRecord { data: SectionView::INF1(inf1), .. }) => {
                &&& spec_all_messages(d) matches Some(ms) ==> ms.len() == inf1.count && forall|i: int|
                    0 <= i < inf1.count ==> spec_get_msg(d, i) == Some(#[trigger] ms[i])
                &&& spec_all_messages(d) is None <==> exists|i: int|
                    0 <= i < inf1.count && #[trigger] spec_get_msg(d, i) is None
            },
            _ => spec_all_messages(d) == Some(Seq::<SingleView>::empty()),
        },
{
    if let Some(SectionRecord { data: SectionView::INF1(inf1), .. }) = d.sections[INF1 as int] {
        lemma_msgs_from(d, 0, inf1.count as int);
        if let Some(ms) = spec_all_messages(d) {
            assert forall|i: int| 0 <= i < inf1.count implies spec_get_msg(d, i) == Some(#[trigger] ms[i]) by {
                assert(spec_get_msg(d, 0 + i) == Some(ms[i]));
            }
        }
    }
}


/// Reading message `idx` of a file with INF1 and DAT1 sections gives the
/// attributes of its INF1 entry and the text read from DAT1 at the entry's
/// offset, whenever the index lies in the table (and in the MID1
/// identifiers, if there are any); it fails exactly when that text cannot
/// be read. A file without INF1 or DAT1 gives the default message.
pub proof fn law_get_msg_reads_its_entry(d: BMGDataView, idx: int)
    ensures
        match (d.sections[INF1 as int], d.sections[DAT1 as int]) {
            (
                Some(SectionRecord { data: SectionView::INF1(inf1), .. }),
                Some(SectionRecord { data: SectionView::DAT1(bytes), .. }),
            ) => (0 <= idx < inf1.entries.len() && bytes.len() <= usize::MAX / 4 && (d.sections[MID1 as int] matches Some(
                SectionRecord { data: SectionView::MID1(mid1), .. },
            ) ==> idx < mid1.ids.len())) ==> match spec_msg_at(bytes, inf1.entries[idx].0 as int, d.header.encoding) {
                Some(t) => spec_get_msg(d, idx) matches Some(m) && m.attribs == inf1.entries[idx].1 && m.text == t,
                None => spec_get_msg(d, idx) is None,
            },
            _ => spec_get_msg(d, idx) == Some(default_single()),
        },
{
}


// ---------------------------------------------------------------------------
// The section walk in closed form
// ---------------------------------------------------------------------------

/// The offset of the `k`-th section header that the walk looks at: 0x20 for
/// the first; each header that lies inside the data (five bytes or more
/// before its end) moves the next one on by its size, any other leaves it.
pub open spec fn walk_offset(data: Seq<u8>, be: bool, k: nat) -> int
    decreases k,
{
    if k == 0 {
        0x20
    } else {
        let o = walk_offset(data, be, (k - 1) as nat);
        if o + 4 < data.len() {
            o + spec_u32(data, o + 4, be)
        } else {
            o
        }
    }
}

/// Whether the `k`-th header lies inside the data, so that it is read.
pub open spec fn walked(data: Seq<u8>, be: bool, k: nat) -> bool {
    walk_offset(data, be, k) + 4 < data.len()
}

/// The identifier of the `k`-th header.
pub open spec fn type_at(data: Seq<u8>, be: bool, k: nat) -> Seq<char> {
    decode_utf8(data.subrange(walk_offset(data, be, k), walk_offset(data, be, k) + 4))
}

/// Whether the `k`-th header is read and names the section kind of slot `j`.
pub open spec fn hits(data: Seq<u8>, be: bool, j: int, k: nat) -> bool {
    walked(data, be, k) && spec_get_idx(type_at(data, be, k)) == Some(j as usize)
}

/// The last header among the `k0`-th to the `cnt - 1`-th that fills slot `j`.
pub open spec fn last_slot(data: Seq<u8>, be: bool, j: int, k0: nat, cnt: nat) -> Option<nat>
    decreases cnt - k0,
{
    if k0 >= cnt {
        None
    } else {
        match last_slot(data, be, j, k0 + 1, cnt) {
            Some(k) => Some(k),
            None => if hits(data, be, j, k0) {
                Some(k0)
            } else {
                None
            },
        }
    }
}

/// Whether `rec` is the section that the `k`-th header describes: its
/// identifier, size, body range (cut at the end of the data) and contents.
pub open spec fn record_of(data: Seq<u8>, be: bool, k: nat, rec: SectionRecord) -> bool {
    let o = walk_offset(data, be, k);
    let size = spec_u32(data, o + 4, be);
    &&& rec.section_type == type_at(data, be, k)
    &&& rec.size == size as u32
    &&& rec.range_start == o + 8
    &&& rec.range_end == (if o + size < data.len() { o + size } else { data.len() as int })
    &&& spec_parse_section(data, o, be) == Some(Ok::<SectionView, ParseErrorKind>(rec.data))
}

/// What slot `j` holds after the headers `k0..cnt`, having held `before`.
pub open spec fn slot_after(
    data: Seq<u8>,
    be: bool,
    j: int,
    k0: nat,
    cnt: nat,
    before: Option<SectionRecord>,
    after: Option<SectionRecord>,
) -> bool {
    match last_slot(data, be, j, k0, cnt) {
        None => after == before,
        Some(k) => after matches Some(rec) && record_of(data, be, k, rec),
    }
}

pub proof fn lemma_last_slot(data: Seq<u8>, be: bool, j: int, k0: nat, cnt: nat)
    ensures
        last_slot(data, be, j, k0, cnt) matches Some(k) ==> k0 <= k < cnt && hits(data, be, j, k) && forall|k2: nat|
            k < k2 < cnt ==> !#[trigger] hits(data, be, j, k2),
        last_slot(data, be, j, k0, cnt) is None ==> forall|k2: nat| k0 <= k2 < cnt ==> !#[trigger] hits(data, be, j, k2),
    decreases cnt - k0,
{
    if k0 < cnt {
        lemma_last_slot(data, be, j, k0 + 1, cnt);
    }
}

proof fn lemma_walk_offset_grows(data: Seq<u8>, be: bool, k: nat)
    ensures
        walk_offset(data, be, k) >= 0x20,
    decreases k,
{
    if k > 0 {
        lemma_walk_offset_grows(data, be, (k - 1) as nat);
    }
}

proof fn lemma_stuck(data: Seq<u8>, be: bool, k0: nat, k: nat)
    requires
        k0 <= k,
        !walked(data, be, k0),
    ensures
        walk_offset(data, be, k) == walk_offset(data, be, k0),
        !walked(data, be, k),
    decreases k - k0,
{
    if k > k0 {
        lemma_stuck(data, be, k0, (k - 1) as nat);
    }
}

proof fn lemma_walk_closed(data: Seq<u8>, be: bool, k0: nat, cnt: nat, secs: Seq<Option<SectionRecord>>)
    requires
        k0 <= cnt,
        secs.len() == SECTION_COUNT,
    ensures
        spec_walk(data, be, walk_offset(data, be, k0), (cnt - k0) as nat, secs) matches Some(Ok(r)) ==> forall|j: int|
            0 <= j < SECTION_COUNT ==> #[trigger] slot_after(data, be, j, k0, cnt, secs[j], r[j]),
    decreases cnt - k0,
{
    let o = walk_offset(data, be, k0);
    lemma_walk_offset_grows(data, be, k0);
    let rem = (cnt - k0) as nat;
    if rem == 0 {
        assert forall|j: int| 0 <= j < SECTION_COUNT implies #[trigger] slot_after(data, be, j, k0, cnt, secs[j], secs[j]) by {
        }
    } else if o + 4 >= data.len() {
        assert forall|j: int| 0 <= j < SECTION_COUNT implies #[trigger] slot_after(data, be, j, k0, cnt, secs[j], secs[j]) by {
            lemma_last_slot(data, be, j, k0, cnt);
            if let Some(k) = last_slot(data, be, j, k0, cnt) {
                lemma_stuck(data, be, k0, k);
            }
        }
    } else if !valid_utf8(data.subrange(o, o + 4)) || o + 8 > data.len() {
    } else {
        let t = decode_utf8(data.subrange(o, o + 4));
        let size = spec_u32(data, o + 4, be);
        let next = o + size;
        assert(walk_offset(data, be, k0 + 1) == next);
        assert(t == type_at(data, be, k0));
        assert(walked(data, be, k0));
        assert(((cnt - k0) as nat - 1) as nat == (cnt - (k0 + 1)) as nat);
        match spec_get_idx(t) {
            None => {
                lemma_walk_closed(data, be, k0 + 1, cnt, secs);
                if let Some(Ok(r)) = spec_walk(data, be, o, rem, secs) {
                    assert forall|j: int| 0 <= j < SECTION_COUNT implies #[trigger] slot_after(data, be, j, k0, cnt, secs[j], r[j]) by {
                        assert(!hits(data, be, j, k0));
                        assert(slot_after(data, be, j, k0 + 1, cnt, secs[j], r[j]));
                    }
                }
            },
            Some(idx) => match spec_parse_section(data, o, be) {
                Some(Ok(sv)) => {
                    let rec0 = SectionRecord {
                        section_type: t,
                        size: size as u32,
                        range_start: o + 8,
                        range_end: if next < data.len() { next } else { data.len() as int },
                        data: sv,
                    };
                    let s2 = secs.update(idx as int, Some(rec0));
                    lemma_walk_closed(data, be, k0 + 1, cnt, s2);
                    assert(record_of(data, be, k0, rec0));
                    if let Some(Ok(r)) = spec_walk(data, be, o, rem, secs) {
                        assert(spec_walk(data, be, o, rem, secs) == spec_walk(data, be, next, (rem - 1) as nat, s2));
                        assert forall|j: int| 0 <= j < SECTION_COUNT implies #[trigger] slot_after(data, be, j, k0, cnt, secs[j], r[j]) by {
                            assert(slot_after(data, be, j, k0 + 1, cnt, s2[j], r[j]));
                            if j == idx {
                                assert(hits(data, be, j, k0));
                            } else {
                                assert(!hits(data, be, j, k0));
                                assert(s2[j] == secs[j]);
                            }
                        }
                    }
                },
                _ => {},
            },
        }
    }
}

/// A file read without error holds the header that heads it and, in each
/// slot, the section described by the last of its first `sections_cnt`
/// headers (those that lie inside the data, each found `size` bytes after
/// the one before) that names the slot's kind; a slot no header names
/// stays empty.
pub proof fn law_sections_closed_form(data: Seq<u8>, be: bool)
    ensures
        spec_parse_data(data, be) matches Some(Ok(d)) ==> {
            &&& spec_parse_header(data, be) == Some(Ok::<BMGHeaderView, ParseErrorKind>(d.header))
            &&& d.sections.len() == SECTION_COUNT
            &&& forall|j: int|
                0 <= j < SECTION_COUNT ==> match #[trigger] last_slot(data, be, j, 0, d.header.sections_cnt as nat) {
                    None => d.sections[j] is None && forall|k: nat|
                        k < d.header.sections_cnt ==> !#[trigger] hits(data, be, j, k),
                    Some(k) => d.sections[j] matches Some(rec) && record_of(data, be, k, rec) && hits(data, be, j, k)
                        && forall|k2: nat| k < k2 < d.header.sections_cnt ==> !#[trigger] hits(data, be, j, k2),
                }
        },
{
    if let Some(Ok(h)) = spec_parse_header(data, be) {
        let cnt = h.sections_cnt as nat;
        lemma_walk_closed(data, be, 0, cnt, empty_sections());
        lemma_walk_keeps_slots(data, be, 0x20, cnt, empty_sections());
        assert(walk_offset(data, be, 0) == 0x20);
        if let Some(Ok(d)) = spec_parse_data(data, be) {
            assert forall|j: int| 0 <= j < SECTION_COUNT implies match #[trigger] last_slot(data, be, j, 0, cnt) {
                None => d.sections[j] is None && forall|k: nat| k < cnt ==> !#[trigger] hits(data, be, j, k),
                Some(k) => d.sections[j] matches Some(rec) && record_of(data, be, k, rec) && hits(data, be, j, k)
                    && forall|k2: nat| k < k2 < cnt ==> !#[trigger] hits(data, be, j, k2),
            } by {
                lemma_last_slot(data, be, j, 0, cnt);
                assert(slot_after(data, be, j, 0, cnt, empty_sections()[j], d.sections[j]));
            }
        }
    }
}


/// The first of the `count` section headers that lies outside the data
/// (from there on no header is read), or `count` if every one lies inside;
/// the count stops early at a header inside the data whose size field runs
/// past its end, where reading the file fails.
pub fn first_unread_header(data: &[u8], big_endian: bool, count: u32) -> (r: u32)
    ensures
        r <= count,
        forall|k: nat| k < r ==> #[trigger] walked(data@, big_endian, k),
        r < count ==> !walked(data@, big_endian, r as nat) || walk_offset(data@, big_endian, r as nat) + 8
            > data@.len(),
{
    let len = data.len() as u128;
    let mut o: u128 = 0x20;
    let mut k: u32 = 0;
    while k < count
        invariant
            len == data@.len(),
            len <= usize::MAX,
            k <= count,
            o == walk_offset(data@, big_endian, k as nat),
            o <= len + 0x1_0000_0000,
            forall|k2: nat| k2 < k ==> #[trigger] walked(data@, big_endian, k2),
        decreases count - k,
    {
        if o + 4 >= len || o + 8 > len {
            return k;
        }
        let size = get_u32_order(data, o as usize + 4, big_endian);
        assert(walked(data@, big_endian, k as nat));
        o = o + size as u128;
        k = k + 1;
    }
    k
}


impl crate::bmg_message::MessageParser for BMGRawParser {
    /// Every message of the file can be read (see [`spec_all_messages`]).
    open spec fn parser_ready(&self) -> bool {
        self.wf() && spec_all_messages(self@) is Some
    }

    /// All messages, one per INF1 entry count (see
    /// [`BMGRawParser::try_get_all_messages`]).
    fn get_all_messages(&self) -> (r: Vec<MessageSingleLang>)
        ensures
            spec_all_messages(self@) == Some(r@.map_values(|m: MessageSingleLang| m@)),
    {
        match self.try_get_all_messages() {
            Some(v) => v,
            None => {
                proof {
                    assert(false);
                }
                Vec::new()
            },
        }
    }
}


// ---------------------------------------------------------------------------
// Laws of message text decoding
// ---------------------------------------------------------------------------

/// Whether every text run of `parts` is the decoding, with `enc`, of some
/// stretch of `data`.
pub open spec fn runs_decoded_with(parts: Seq<PartView>, data: Seq<u8>, enc: TextEncoding) -> bool {
    forall|i: int|
        0 <= i < parts.len() ==> (#[trigger] parts[i] matches PartView::Text(t) ==> exists|a: int, b: int|
            0 <= a <= b <= data.len() && t == decoded_text(enc, data.subrange(a, b)))
}

proof fn lemma_runs_prepend(a: Seq<PartView>, r: Seq<PartView>, data: Seq<u8>, enc: TextEncoding)
    requires
        runs_decoded_with(a, data, enc),
        runs_decoded_with(r, data, enc),
    ensures
        runs_decoded_with(a + r, data, enc),
{
    assert forall|i: int| 0 <= i < (a + r).len() implies (#[trigger] (a + r)[i] matches PartView::Text(t) ==> exists|x: int, y: int|
        0 <= x <= y <= data.len() && t == decoded_text(enc, data.subrange(x, y))) by {
        if i < a.len() {
            assert((a + r)[i] == a[i]);
        } else {
            assert((a + r)[i] == r[i - a.len()]);
        }
    }
}

proof fn lemma_one_run(data: Seq<u8>, enc: TextEncoding, x: int, y: int, rest: Seq<PartView>)
    requires
        0 <= x <= y <= data.len(),
        forall|i: int| 0 <= i < rest.len() ==> !(#[trigger] rest[i] is Text),
    ensures
        runs_decoded_with(seq![PartView::Text(decoded_text(enc, data.subrange(x, y)))] + rest, data, enc),
{
    let ps = seq![PartView::Text(decoded_text(enc, data.subrange(x, y)))] + rest;
    assert forall|i: int| 0 <= i < ps.len() implies (#[trigger] ps[i] matches PartView::Text(t) ==> exists|a: int, b: int|
        0 <= a <= b <= data.len() && t == decoded_text(enc, data.subrange(a, b))) by {
        if i == 0 {
            assert(ps[0] == PartView::Text(decoded_text(enc, data.subrange(x, y))));
        } else {
            assert(ps[i] == rest[i - 1]);
        }
    }
}

proof fn lemma_msg_parts_runs(data: Seq<u8>, pos: int, wide: bool, enc: TextEncoding)
    ensures
        msg_parts(data, pos, wide, enc) matches Some(ps) ==> runs_decoded_with(ps, data, enc),
    decreases data.len() - pos,
{
    if pos < 0 || pos > data.len() {
    } else if wide {
        lemma_find_wide_stop(data, pos);
        if let Some(j) = find_wide_stop(data, pos) {
            lemma_one_run(data, enc, pos, j, Seq::empty());
            assert(seq![PartView::Text(decoded_text(enc, data.subrange(pos, j)))] + Seq::<PartView>::empty()
                =~= seq![PartView::Text(decoded_text(enc, data.subrange(pos, j)))]);
            if spec_u16_le(data, j) != 0 {
                if let Some((tag, e)) = tag_part(data, j + 2, 3) {
                    lemma_msg_parts_runs(data, e, wide, enc);
                    let head = seq![PartView::Text(decoded_text(enc, data.subrange(pos, j))), PartView::Tag(tag)];
                    lemma_one_run(data, enc, pos, j, seq![PartView::Tag(tag)]);
                    assert(seq![PartView::Text(decoded_text(enc, data.subrange(pos, j)))] + seq![PartView::Tag(tag)] =~= head);
                    if let Some(r) = msg_parts(data, e, wide, enc) {
                        lemma_runs_prepend(head, r, data, enc);
                    }
                }
            }
        }
    } else {
        lemma_find_plain_stop(data, pos);
        let j = find_plain_stop(data, pos);
        let text = PartView::Text(decoded_text(enc, data.subrange(pos, j)));
        lemma_one_run(data, enc, pos, j, Seq::empty());
        assert(seq![text] + Seq::<PartView>::empty() =~= seq![text]);
        if j >= data.len() {
            if j != pos {
                lemma_msg_parts_runs(data, data.len() as int, wide, enc);
                if let Some(r) = msg_parts(data, data.len() as int, wide, enc) {
                    lemma_runs_prepend(seq![text], r, data, enc);
                }
            }
        } else if data[j] != 0 {
            if let Some((tag, e)) = tag_part(data, j + 1, 2) {
                lemma_msg_parts_runs(data, e, wide, enc);
                lemma_one_run(data, enc, pos, j, seq![PartView::Tag(tag)]);
                assert(seq![text] + seq![PartView::Tag(tag)] =~= seq![text, PartView::Tag(tag)]);
                if let Some(r) = msg_parts(data, e, wide, enc) {
                    lemma_runs_prepend(seq![text, PartView::Tag(tag)], r, data, enc);
                }
            }
        }
    }
}

/// Every text run of a message read from DAT1 is decoded with the encoding
/// that the header's encoding byte selects, the one `get_encoding` reports:
/// Windows-1252, UTF-16LE for 2, Shift-JIS for 3.
pub proof fn law_message_text_uses_header_encoding(data: Seq<u8>, offset: int, code: u8)
    ensures
        spec_msg_at(data, offset, code) matches Some(ps) ==> runs_decoded_with(ps, data, spec_encoding_of(code)),
        spec_encoding_of(3) == TextEncoding::ShiftJis,
        spec_encoding_of(2) == TextEncoding::Utf16Le,
        code != 2 && code != 3 ==> spec_encoding_of(code) == TextEncoding::Windows1252,
{
    if 0 <= offset < data.len() && data[offset] != 0 {
        lemma_msg_parts_runs(data, offset, code == 2, spec_encoding_of(code));
    }
}

proof fn lemma_plain_stop_at(data: Seq<u8>, pos: int, j: int)
    requires
        0 <= pos <= j < data.len(),
        is_stop_byte(data[j]),
        forall|k: int| pos <= k < j ==> !is_stop_byte(#[trigger] data[k]),
    ensures
        find_plain_stop(data, pos) == j,
    decreases j - pos,
{
    if pos < j {
        lemma_plain_stop_at(data, pos + 1, j);
    }
}

/// A one-byte-encoded message without tags, ending at the first zero byte,
/// reads as one text run: its bytes decoded with the header's encoding.
pub proof fn law_plain_message_is_one_decoded_run(data: Seq<u8>, offset: int, j: int, code: u8)
    requires
        code != 2,
        0 <= offset < j < data.len(),
        data[j] == 0,
        forall|k: int| offset <= k < j ==> #[trigger] data[k] != 0 && data[k] != 0x1A,
    ensures
        spec_msg_at(data, offset, code) == Some(
            seq![PartView::Text(decoded_text(spec_encoding_of(code), data.subrange(offset, j)))],
        ),
{
    lemma_plain_stop_at(data, offset, j);
}

proof fn lemma_wide_stop_at(data: Seq<u8>, pos: int, j: int)
    requires
        0 <= pos <= j,
        j + 2 <= data.len(),
        (j - pos) % 2 == 0,
        is_stop_unit(data, j),
        forall|k: int| pos <= k < j && (k - pos) % 2 == 0 ==> !#[trigger] is_stop_unit(data, k),
    ensures
        find_wide_stop(data, pos) == Some(j),
    decreases j - pos,
{
    if pos < j {
        assert(!is_stop_unit(data, pos));
        assert forall|k: int| pos + 2 <= k < j && (k - (pos + 2)) % 2 == 0 implies !#[trigger] is_stop_unit(data, k) by {
            assert((k - pos) % 2 == 0);
        }
        lemma_wide_stop_at(data, pos + 2, j);
    }
}

/// A UTF-16 message without tags, ending at the first zero code unit,
/// reads as one text run: its bytes decoded as UTF-16LE.
pub proof fn law_wide_message_is_one_decoded_run(data: Seq<u8>, offset: int, j: int)
    requires
        0 <= offset < j,
        j + 2 <= data.len(),
        (j - offset) % 2 == 0,
        data[offset] != 0,
        spec_u16_le(data, j) == 0,
        forall|k: int| offset <= k < j && (k - offset) % 2 == 0 ==> !#[trigger] is_stop_unit(data, k),
    ensures
        spec_msg_at(data, offset, 2) == Some(
            seq![PartView::Text(decoded_text(TextEncoding::Utf16Le, data.subrange(offset, j)))],
        ),
{
    lemma_wide_stop_at(data, offset, j);
}


/// Every text run of a message read from a file is its DAT1 bytes decoded
/// with the encoding that the file's header selects, the one that
/// `BMGRawParser::get_encoding` reports.
pub proof fn law_read_messages_use_file_encoding(d: BMGDataView, idx: int)
    ensures
        match (d.sections[DAT1 as int], spec_get_msg(d, idx)) {
            (Some(SectionRecord { data: SectionView::DAT1(bytes), .. }), Some(m)) => runs_decoded_with(
                m.text,
                bytes,
                spec_encoding_of(d.header.encoding),
            ),
            _ => true,
        },
{
    if let (Some(SectionRecord { data: SectionView::DAT1(bytes), .. }), Some(m)) = (
        d.sections[DAT1 as int],
        spec_get_msg(d, idx),
    ) {
        if let Some(SectionRecord { data: SectionView::INF1(inf1), .. }) = d.sections[INF1 as int] {
            law_message_text_uses_header_encoding(bytes, inf1.entries[idx].0 as int, d.header.encoding);
        } else {
            assert(m.text.len() == 0);
        }
    }
}

} // verus!
