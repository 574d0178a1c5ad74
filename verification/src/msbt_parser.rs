use vstd::prelude::*;
use vstd::utf8::{decode_utf8, valid_utf8};

use crate::bmg_raw_parser::str_is4;
use crate::text_codec::str_from_utf8;
use crate::utils::{get_u16_be, get_u16_order, get_u32_order, spec_u16, spec_u16_be, spec_u32};

verus! {

/// Why an MSBT file could not be read.
pub enum MSBTParseError {
    /// A block or file identifier is not valid UTF-8.
    InvalidSectionID(core::str::Utf8Error),
    /// A block identifier names no block kind that can be read.
    UnknownSectionID,
    /// A block offset lies outside the file.
    OffsetOutOfBounds,
}

/// The kind of an [`MSBTParseError`].
#[derive(Clone, Copy, Debug, PartialEq, Eq, Structural)]
pub enum MSBTErrorKind {
    InvalidSectionID,
    UnknownSectionID,
    OffsetOutOfBounds,
}

impl View for MSBTParseError {
    type V = MSBTErrorKind;

    open spec fn view(&self) -> MSBTErrorKind {
        match self {
            MSBTParseError::InvalidSectionID(_) => MSBTErrorKind::InvalidSectionID,
            MSBTParseError::UnknownSectionID => MSBTErrorKind::UnknownSectionID,
            MSBTParseError::OffsetOutOfBounds => MSBTErrorKind::OffsetOutOfBounds,
        }
    }
}

impl MSBTParseError {
    /// The kind of this error.
    pub fn kind(&self) -> (r: MSBTErrorKind)
        ensures
            r == self@,
    {
        match self {
            MSBTParseError::InvalidSectionID(_) => MSBTErrorKind::InvalidSectionID,
            MSBTParseError::UnknownSectionID => MSBTErrorKind::UnknownSectionID,
            MSBTParseError::OffsetOutOfBounds => MSBTErrorKind::OffsetOutOfBounds,
        }
    }
}

pub open spec fn msbt_outcome<T: View>(r: Option<Result<T, MSBTParseError>>) -> Option<Result<T::V, MSBTErrorKind>> {
    match r {
        None => None,
        Some(Ok(v)) => Some(Ok(v@)),
        Some(Err(e)) => Some(Err(e@)),
    }
}

/// The header of an MSBT file.
pub struct LMSHeader {
    pub magic: String,
    pub big_endian: bool,
    pub _unknown: u16,
    pub encoding: u8,
    pub version: u8,
    pub blocks_cnt: u16,
    pub _unknown2: u16,
    pub filesize: u32,
}

pub struct LMSHeaderView {
    pub magic: Seq<char>,
    pub big_endian: bool,
    pub unknown: u16,
    pub encoding: u8,
    pub version: u8,
    pub blocks_cnt: u16,
    pub unknown2: u16,
    pub filesize: u32,
}

impl View for LMSHeader {
    type V = LMSHeaderView;

    open spec fn view(&self) -> LMSHeaderView {
        LMSHeaderView {
            magic: self.magic@,
            big_endian: self.big_endian,
            unknown: self._unknown,
            encoding: self.encoding,
            version: self.version,
            blocks_cnt: self.blocks_cnt,
            unknown2: self._unknown2,
            filesize: self.filesize,
        }
    }
}

/// Reading the header: the byte-order mark at 8 (0xFEFF read big-endian
/// means big-endian), eight UTF-8 magic bytes, then the fields at 0x0A to
/// 0x15 in that byte order. `None` where the data is too short for them.
pub open spec fn spec_msbt_header(data: Seq<u8>) -> Option<Result<LMSHeaderView, MSBTErrorKind>> {
    if data.len() < 10 {
        None
    } else if !valid_utf8(data.subrange(0, 8)) {
        Some(Err(MSBTErrorKind::InvalidSectionID))
    } else if data.len() < 0x16 {
        None
    } else {
        let be = spec_u16_be(data, 8) == 0xFEFF;
        Some(Ok(LMSHeaderView {
            magic: decode_utf8(data.subrange(0, 8)),
            big_endian: be,
            unknown: spec_u16(data, 0x0A, be) as u16,
            encoding: data[0x0C],
            version: data[0x0D],
            blocks_cnt: spec_u16(data, 0x0E, be) as u16,
            unknown2: spec_u16(data, 0x10, be) as u16,
            filesize: spec_u32(data, 0x12, be) as u32,
        }))
    }
}

/// Reads the MSBT header (see [`spec_msbt_header`]).
pub fn parse_msbt_header(data: &[u8]) -> (r: Option<Result<LMSHeader, MSBTParseError>>)
    ensures
        msbt_outcome(r) == spec_msbt_header(data@),
{
    if data.len() < 10 {
        return None;
    }
    let big_endian = get_u16_be(data, 8) == 0xFEFF;
    let magic = match str_from_utf8(&data[0..8]) {
        Ok(s) => s.to_owned(),
        Err(e) => {
            return Some(Err(MSBTParseError::InvalidSectionID(e)));
        },
    };
    if data.len() < 0x16 {
        return None;
    }
    Some(Ok(LMSHeader {
        magic,
        big_endian,
        _unknown: get_u16_order(data, 0x0A, big_endian),
        encoding: data[0x0C],
        version: data[0x0D],
        blocks_cnt: get_u16_order(data, 0x0E, big_endian),
        _unknown2: get_u16_order(data, 0x10, big_endian),
        filesize: get_u32_order(data, 0x12, big_endian),
    }))
}

/// The slot of each block kind.
pub const MSBT_SECTION_COUNT: usize = 4;
pub const LBL1: usize = 0;
pub const TXT2: usize = 1;
pub const ATR1: usize = 2;
pub const TSY1: usize = 3;

/// The slot of the block kind that a four-character identifier names.
pub open spec fn spec_msbt_idx(t: Seq<char>) -> Option<usize> {
    if t == seq!['L', 'B', 'L', '1'] {
        Some(LBL1)
    } else if t == seq!['T', 'X', 'T', '2'] {
        Some(TXT2)
    } else if t == seq!['A', 'T', 'R', '1'] {
        Some(ATR1)
    } else if t == seq!['T', 'S', 'Y', '1'] {
        Some(TSY1)
    } else {
        None
    }
}

/// The slot of the block kind that `type_str` names.
pub fn msbt_get_idx(type_str: &str) -> (r: Option<usize>)
    ensures
        r == spec_msbt_idx(type_str@),
{
    if str_is4(type_str, 'L', 'B', 'L', '1') {
        Some(LBL1)
    } else if str_is4(type_str, 'T', 'X', 'T', '2') {
        Some(TXT2)
    } else if str_is4(type_str, 'A', 'T', 'R', '1') {
        Some(ATR1)
    } else if str_is4(type_str, 'T', 'S', 'Y', '1') {
        Some(TSY1)
    } else {
        None
    }
}

/// The kinds of block whose contents can be read.
#[derive(Clone, Copy, Debug, PartialEq, Eq, Structural)]
pub enum MSBTBlockData {
    LBL1,
    TXT2,
    ATR1,
}

impl View for MSBTBlockData {
    type V = MSBTBlockData;

    open spec fn view(&self) -> MSBTBlockData {
        *self
    }
}

/// Reading a block from `d`, the bytes from its header to the end of its
/// body: four UTF-8 identifier bytes, the size at 4, and the body from 0x10.
/// `None` where `d` is shorter than the sixteen-byte block header.
pub open spec fn spec_msbt_section(d: Seq<u8>, be: bool) -> Option<Result<MSBTBlockData, MSBTErrorKind>> {
    if d.len() < 4 {
        None
    } else if !valid_utf8(d.subrange(0, 4)) {
        Some(Err(MSBTErrorKind::InvalidSectionID))
    } else if d.len() < 0x10 {
        None
    } else {
        let t = decode_utf8(d.subrange(0, 4));
        if t == seq!['L', 'B', 'L', '1'] {
            Some(Ok(MSBTBlockData::LBL1))
        } else if t == seq!['T', 'X', 'T', '2'] {
            Some(Ok(MSBTBlockData::TXT2))
        } else if t == seq!['A', 'T', 'R', '1'] {
            Some(Ok(MSBTBlockData::ATR1))
        } else {
            Some(Err(MSBTErrorKind::UnknownSectionID))
        }
    }
}

/// Reads a block (see [`spec_msbt_section`]).
pub fn parse_msbt_section(d: &[u8], be: bool) -> (r: Option<Result<MSBTBlockData, MSBTParseError>>)
    ensures
        msbt_outcome(r) == spec_msbt_section(d@, be),
{
    if d.len() < 4 {
        return None;
    }
    let t = match str_from_utf8(&d[0..4]) {
        Ok(s) => s,
        Err(e) => {
            return Some(Err(MSBTParseError::InvalidSectionID(e)));
        },
    };
    if d.len() < 0x10 {
        return None;
    }
    if str_is4(t, 'L', 'B', 'L', '1') {
        Some(Ok(MSBTBlockData::LBL1))
    } else if str_is4(t, 'T', 'X', 'T', '2') {
        Some(Ok(MSBTBlockData::TXT2))
    } else if str_is4(t, 'A', 'T', 'R', '1') {
        Some(Ok(MSBTBlockData::ATR1))
    } else {
        Some(Err(MSBTParseError::UnknownSectionID))
    }
}

/// A block as found in the file.
pub struct MSBTBlock {
    pub block_type: String,
    pub size: u32,
    pub range_start: usize,
    pub range_end: usize,
    pub data: MSBTBlockData,
}

pub struct BlockRecord {
    pub block_type: Seq<char>,
    pub size: u32,
    pub range_start: int,
    pub range_end: int,
    pub data: MSBTBlockData,
}

impl View for MSBTBlock {
    type V = BlockRecord;

    open spec fn view(&self) -> BlockRecord {
        BlockRecord {
            block_type: self.block_type@,
            size: self.size,
            range_start: self.range_start as int,
            range_end: self.range_end as int,
            data: self.data,
        }
    }
}

pub open spec fn blocks_view(s: Seq<Option<MSBTBlock>>) -> Seq<Option<BlockRecord>> {
    s.map_values(|o: Option<MSBTBlock>| match o {
        Some(b) => Some(b@),
        None => None,
    })
}

pub open spec fn empty_blocks() -> Seq<Option<BlockRecord>> {
    Seq::new(MSBT_SECTION_COUNT as nat, |i: int| None)
}

/// The start of the block after one at `offset` with body size `size`: the
/// next multiple of 16 after the end of its sixteen-byte header and body.
pub open spec fn next_block(offset: int, size: int) -> int {
    ((offset + 0x10 + size + 16) / 16) * 16
}

/// Walking the blocks from `offset`, at most `remaining` of them; a block
/// of a known kind has its header read and fills its slot. The walk ends
/// early once fewer than five bytes remain at the offset.
pub open spec fn spec_msbt_walk(
    data: Seq<u8>,
    be: bool,
    offset: int,
    remaining: nat,
    blocks: Seq<Option<BlockRecord>>,
) -> Option<Result<Seq<Option<BlockRecord>>, MSBTErrorKind>>
    decreases remaining,
{
    if remaining == 0 || offset < 0 || offset + 4 >= data.len() {
        Some(Ok(blocks))
    } else if !valid_utf8(data.subrange(offset, offset + 4)) {
        Some(Err(MSBTErrorKind::InvalidSectionID))
    } else if offset + 8 > data.len() {
        None
    } else {
        let t = decode_utf8(data.subrange(offset, offset + 4));
        let size = spec_u32(data, offset + 4, be);
        let rs = offset + 8;
        let re = if rs + size < data.len() { rs + size } else { data.len() as int };
        let next = next_block(offset, size);
        match spec_msbt_idx(t) {
            None => spec_msbt_walk(data, be, next, (remaining - 1) as nat, blocks),
            Some(idx) => match spec_msbt_section(data.subrange(offset, re), be) {
                None => None,
                Some(Err(e)) => Some(Err(e)),
                Some(Ok(kind)) => spec_msbt_walk(
                    data,
                    be,
                    next,
                    (remaining - 1) as nat,
                    blocks.update(
                        idx as int,
                        Some(BlockRecord { block_type: t, size: size as u32, range_start: rs, range_end: re, data: kind }),
                    ),
                ),
            },
        }
    }
}

/// A parsed MSBT file.
pub struct MSBTData {
    pub header: LMSHeader,
    pub blocks: Vec<Option<MSBTBlock>>,
}

pub struct MSBTDataView {
    pub header: LMSHeaderView,
    pub blocks: Seq<Option<BlockRecord>>,
}

impl View for MSBTData {
    type V = MSBTDataView;

    open spec fn view(&self) -> MSBTDataView {
        MSBTDataView { header: self.header@, blocks: blocks_view(self.blocks@) }
    }
}

/// Reading a whole MSBT file: the header, then the walk over the blocks from
/// offset 0x20 in the header's byte order.
pub open spec fn spec_msbt_data(data: Seq<u8>) -> Option<Result<MSBTDataView, MSBTErrorKind>> {
    match spec_msbt_header(data) {
        None => None,
        Some(Err(e)) => Some(Err(e)),
        Some(Ok(h)) => match spec_msbt_walk(data, h.big_endian, 0x20, h.blocks_cnt as nat, empty_blocks()) {
            None => None,
            Some(Err(e)) => Some(Err(e)),
            Some(Ok(b)) => Some(Ok(MSBTDataView { header: h, blocks: b })),
        },
    }
}

/// The contents that stand in for an MSBT file that could not be read: the
/// default header and no blocks.
pub open spec fn empty_msbt() -> MSBTDataView {
    MSBTDataView {
        header: LMSHeaderView {
            magic: Seq::empty(),
            big_endian: false,
            unknown: 0,
            encoding: 0,
            version: 0,
            blocks_cnt: 0,
            unknown2: 0,
            filesize: 0,
        },
        blocks: empty_blocks(),
    }
}

/// What a parser holds after reading `data`: the parsed file, or the empty
/// contents when reading reported an error; `None` where reading fails
/// without an error.
pub open spec fn spec_msbt_new(data: Seq<u8>) -> Option<MSBTDataView> {
    match spec_msbt_data(data) {
        None => None,
        Some(Ok(d)) => Some(d),
        Some(Err(_)) => Some(empty_msbt()),
    }
}

fn empty_block_slots() -> (r: Vec<Option<MSBTBlock>>)
    ensures
        blocks_view(r@) == empty_blocks(),
        r@.len() == MSBT_SECTION_COUNT,
{
    let mut r: Vec<Option<MSBTBlock>> = Vec::new();
    let mut i: usize = 0;
    while i < MSBT_SECTION_COUNT
        invariant
            i <= MSBT_SECTION_COUNT,
            r@.len() == i,
            forall|j: int| 0 <= j < i ==> r@[j] is None,
        decreases MSBT_SECTION_COUNT - i,
    {
        r.push(None);
        i = i + 1;
    }
    assert(blocks_view(r@) =~= empty_blocks());
    r
}

fn msbt_walk_step(
    data: &[u8],
    be: bool,
    offset: usize,
    Ghost(remaining): Ghost<nat>,
    blocks: &mut Vec<Option<MSBTBlock>>,
) -> (r: Option<Result<Option<usize>, MSBTParseError>>)
    requires
        remaining > 0,
        old(blocks)@.len() == MSBT_SECTION_COUNT,
    ensures
        final(blocks)@.len() == MSBT_SECTION_COUNT,
        ({
            let w = spec_msbt_walk(data@, be, offset as int, remaining, blocks_view(old(blocks)@));
            match r {
                None => w is None,
                Some(Err(e)) => w == Some(Err::<Seq<Option<BlockRecord>>, MSBTErrorKind>(e@)),
                Some(Ok(None)) => w == Some(Ok::<Seq<Option<BlockRecord>>, MSBTErrorKind>(blocks_view(final(blocks)@))),
                Some(Ok(Some(n))) => w == spec_msbt_walk(data@, be, n as int, (remaining - 1) as nat, blocks_view(final(blocks)@)),
            }
        }),
{
    if offset >= data.len() || data.len() - offset <= 4 {
        return Some(Ok(None));
    }
    let type_str = match str_from_utf8(&data[offset..offset + 4]) {
        Ok(s) => s,
        Err(e) => {
            return Some(Err(MSBTParseError::InvalidSectionID(e)));
        },
    };
    if data.len() - offset < 8 {
        return None;
    }
    let size = get_u32_order(data, offset + 4, be);
    let range_start = offset + 8;
    let range_end: usize = if (size as usize) < data.len() - range_start { range_start + size as usize } else { data.len() };
    match msbt_get_idx(type_str) {
        None => {},
        Some(idx) => {
            match parse_msbt_section(&data[offset..range_end], be) {
                None => {
                    return None;
                },
                Some(Err(e)) => {
                    return Some(Err(e));
                },
                Some(Ok(kind)) => {
                    let block = MSBTBlock { block_type: type_str.to_owned(), size, range_start, range_end, data: kind };
                    let ghost bv = block@;
                    let ghost before = blocks_view(blocks@);
                    blocks.set(idx, Some(block));
                    assert(blocks_view(blocks@) =~= before.update(idx as int, Some(bv)));
                },
            }
        },
    }
    let next: u128 = ((offset as u128 + 0x10 + size as u128 + 16) / 16) * 16;
    if next >= data.len() as u128 {
        assert(spec_msbt_walk(data@, be, next as int, (remaining - 1) as nat, blocks_view(blocks@))
            == Some(Ok::<Seq<Option<BlockRecord>>, MSBTErrorKind>(blocks_view(blocks@))));
        Some(Ok(None))
    } else {
        Some(Ok(Some(next as usize)))
    }
}

/// Reads a whole MSBT file (see [`spec_msbt_data`]); `None` where reading
/// fails without an error.
pub fn parse_msbt_data(data: &[u8]) -> (r: Option<Result<MSBTData, MSBTParseError>>)
    ensures
        msbt_outcome(r) == spec_msbt_data(data@),
{
    let header = match parse_msbt_header(data) {
        None => {
            return None;
        },
        Some(Err(e)) => {
            return Some(Err(e));
        },
        Some(Ok(h)) => h,
    };
    let be = header.big_endian;
    let mut blocks = empty_block_slots();
    let mut offset: usize = 0x20;
    let mut i: u16 = 0;
    let ghost target = spec_msbt_walk(data@, be, 0x20, header.blocks_cnt as nat, empty_blocks());
    while i < header.blocks_cnt
        invariant
            i <= header.blocks_cnt,
            be == header.big_endian,
            blocks@.len() == MSBT_SECTION_COUNT,
            spec_msbt_header(data@) == Some(Ok::<LMSHeaderView, MSBTErrorKind>(header@)),
            target == spec_msbt_walk(data@, be, 0x20, header.blocks_cnt as nat, empty_blocks()),
            target == spec_msbt_walk(data@, be, offset as int, (header.blocks_cnt - i) as nat, blocks_view(blocks@)),
        decreases header.blocks_cnt - i,
    {
        match msbt_walk_step(data, be, offset, Ghost((header.blocks_cnt - i) as nat), &mut blocks) {
            None => {
                return None;
            },
            Some(Err(e)) => {
                return Some(Err(e));
            },
            Some(Ok(None)) => {
                return Some(Ok(MSBTData { header, blocks }));
            },
            Some(Ok(Some(next))) => {
                offset = next;
            },
        }
        i = i + 1;
    }
    Some(Ok(MSBTData { header, blocks }))
}

/// An MSBT file read into memory.
pub struct MSBTParser {
    _data: Vec<u8>,
    data_parsed: MSBTData,
}

impl View for MSBTParser {
    type V = MSBTDataView;

    closed spec fn view(&self) -> MSBTDataView {
        self.data_parsed@
    }
}

/// The walk fills slots but never adds or removes one.
pub proof fn lemma_msbt_walk_keeps_slots(
    data: Seq<u8>,
    be: bool,
    offset: int,
    remaining: nat,
    blocks: Seq<Option<BlockRecord>>,
)
    requires
        blocks.len() == MSBT_SECTION_COUNT,
    ensures
        spec_msbt_walk(data, be, offset, remaining, blocks) matches Some(Ok(r)) ==> r.len() == MSBT_SECTION_COUNT,
    decreases remaining,
{
    if remaining == 0 || offset < 0 || offset + 4 >= data.len() {
    } else if !valid_utf8(data.subrange(offset, offset + 4)) || offset + 8 > data.len() {
    } else {
        let t = decode_utf8(data.subrange(offset, offset + 4));
        let size = spec_u32(data, offset + 4, be);
        let rs = offset + 8;
        let re = if rs + size < data.len() { rs + size } else { data.len() as int };
        let next = next_block(offset, size);
        match spec_msbt_idx(t) {
            None => lemma_msbt_walk_keeps_slots(data, be, next, (remaining - 1) as nat, blocks),
            Some(idx) => match spec_msbt_section(data.subrange(offset, re), be) {
                Some(Ok(kind)) => lemma_msbt_walk_keeps_slots(
                    data,
                    be,
                    next,
                    (remaining - 1) as nat,
                    blocks.update(
                        idx as int,
                        Some(BlockRecord { block_type: t, size: size as u32, range_start: rs, range_end: re, data: kind }),
                    ),
                ),
                _ => {},
            },
        }
    }
}

impl MSBTParser {
    /// The parser holds one slot per block kind.
    pub closed spec fn wf(&self) -> bool {
        self.data_parsed.blocks@.len() == MSBT_SECTION_COUNT
    }

    /// The bytes the parser was built from.
    pub closed spec fn raw_bytes(&self) -> Seq<u8> {
        self._data@
    }

    /// Reads an MSBT file from its bytes. A file that reports an error is
    /// held as empty contents; `None` where the layout is malformed so that
    /// reading fails without an error (see [`spec_msbt_new`]).
    pub fn try_new(data: Vec<u8>) -> (r: Option<MSBTParser>)
        ensures
            r is None <==> spec_msbt_new(data@) is None,
            r matches Some(p) ==> p.wf() && p.raw_bytes() == data@ && Some(p@) == spec_msbt_new(data@),
    {
        let parsed = parse_msbt_data(data.as_slice());
        match parsed {
            None => None,
            Some(Ok(d)) => {
                proof {
                    lemma_msbt_walk_keeps_slots(data@, d.header.big_endian, 0x20, d.header.blocks_cnt as nat, empty_blocks());
                }
                Some(MSBTParser { _data: data, data_parsed: d })
            },
            Some(Err(_)) => {
                let header = LMSHeader {
                    magic: String::new(),
                    big_endian: false,
                    _unknown: 0,
                    encoding: 0,
                    version: 0,
                    blocks_cnt: 0,
                    _unknown2: 0,
                    filesize: 0,
                };
                Some(MSBTParser { _data: data, data_parsed: MSBTData { header, blocks: empty_block_slots() } })
            },
        }
    }

    /// Reads an MSBT file from its bytes (see [`MSBTParser::try_new`]).
    pub fn new(data: Vec<u8>) -> (r: MSBTParser)
        requires
            spec_msbt_new(data@) is Some,
        ensures
            r.wf(),
            r.raw_bytes() == data@,
            Some(r@) == spec_msbt_new(data@),
    {
        match MSBTParser::try_new(data) {
            Some(p) => p,
            None => {
                proof {
                    assert(false);
                }
                let header = LMSHeader {
                    magic: String::new(),
                    big_endian: false,
                    _unknown: 0,
                    encoding: 0,
                    version: 0,
                    blocks_cnt: 0,
                    _unknown2: 0,
                    filesize: 0,
                };
                MSBTParser { _data: Vec::new(), data_parsed: MSBTData { header, blocks: empty_block_slots() } }
            },
        }
    }

    /// The file header.
    pub fn get_header(&self) -> (r: &LMSHeader)
        ensures
            r@ == self@.header,
    {
        &self.data_parsed.header
    }

    /// The block slots, one per block kind.
    pub fn get_blocks(&self) -> (r: &Vec<Option<MSBTBlock>>)
        ensures
            blocks_view(r@) == self@.blocks,
    {
        &self.data_parsed.blocks
    }

    /// The contents of the block in slot `idx`, if that block was found.
    pub fn get_block(&self, idx: usize) -> (r: Option<&MSBTBlockData>)
        requires
            self.wf(),
            idx < MSBT_SECTION_COUNT,
        ensures
            match self@.blocks[idx as int] {
                Some(rec) => r matches Some(d) && *d == rec.data,
                None => r is None,
            },
    {
        match &self.data_parsed.blocks[idx] {
            Some(block) => Some(&block.data),
            None => None,
        }
    }
}


/// The slot that a block kind belongs in.
pub open spec fn block_slot(k: MSBTBlockData) -> usize {
    match k {
        MSBTBlockData::LBL1 => LBL1,
        MSBTBlockData::TXT2 => TXT2,
        MSBTBlockData::ATR1 => ATR1,
    }
}

/// Whether every filled slot holds a block of its own kind, named by its
/// identifier.
pub open spec fn blocks_consistent(blocks: Seq<Option<BlockRecord>>) -> bool {
    forall|k: int|
        0 <= k < blocks.len() ==> (#[trigger] blocks[k] matches Some(rec) ==> block_slot(rec.data) == k
            && spec_msbt_idx(rec.block_type) == Some(k as usize))
}

proof fn lemma_msbt_walk_consistent(
    data: Seq<u8>,
    be: bool,
    offset: int,
    remaining: nat,
    blocks: Seq<Option<BlockRecord>>,
)
    requires
        blocks.len() == MSBT_SECTION_COUNT,
        blocks_consistent(blocks),
    ensures
        spec_msbt_walk(data, be, offset, remaining, blocks) matches Some(Ok(r)) ==> blocks_consistent(r),
    decreases remaining,
{
    if remaining == 0 || offset < 0 || offset + 4 >= data.len() {
    } else if !valid_utf8(data.subrange(offset, offset + 4)) || offset + 8 > data.len() {
    } else {
        let t = decode_utf8(data.subrange(offset, offset + 4));
        let size = spec_u32(data, offset + 4, be);
        let rs = offset + 8;
        let re = if rs + size < data.len() { rs + size } else { data.len() as int };
        let next = next_block(offset, size);
        match spec_msbt_idx(t) {
            None => lemma_msbt_walk_consistent(data, be, next, (remaining - 1) as nat, blocks),
            Some(idx) => match spec_msbt_section(data.subrange(offset, re), be) {
                Some(Ok(kind)) => {
                    assert(data.subrange(offset, re).subrange(0, 4) =~= data.subrange(offset, offset + 4));
                    let b2 = blocks.update(
                        idx as int,
                        Some(BlockRecord { block_type: t, size: size as u32, range_start: rs, range_end: re, data: kind }),
                    );
                    assert(blocks_consistent(b2)) by {
                        assert forall|k: int| 0 <= k < b2.len() implies (#[trigger] b2[k] matches Some(r)
                            ==> block_slot(r.data) == k && spec_msbt_idx(r.block_type) == Some(k as usize)) by {
                            if k != idx {
                                assert(b2[k] == blocks[k]);
                            }
                        }
                    }
                    lemma_msbt_walk_consistent(data, be, next, (remaining - 1) as nat, b2);
                },
                _ => {},
            },
        }
    }
}

/// Every block a parsed file holds stands in the slot of its own kind,
/// named by its identifier; the TSY1 slot stays empty.
pub proof fn law_blocks_in_their_slots(data: Seq<u8>)
    ensures
        spec_msbt_new(data) matches Some(d) ==> d.blocks.len() == MSBT_SECTION_COUNT && blocks_consistent(d.blocks)
            && d.blocks[TSY1 as int] is None,
{
    assert(blocks_consistent(empty_blocks()));
    if let Some(Ok(h)) = spec_msbt_header(data) {
        lemma_msbt_walk_keeps_slots(data, h.big_endian, 0x20, h.blocks_cnt as nat, empty_blocks());
        lemma_msbt_walk_consistent(data, h.big_endian, 0x20, h.blocks_cnt as nat, empty_blocks());
    }
    if let Some(d) = spec_msbt_new(data) {
        if let Some(rec) = d.blocks[TSY1 as int] {
            assert(block_slot(rec.data) != TSY1);
        }
    }
}


/// The offset of the `k`-th block header that the walk looks at: 0x20 for
/// the first; each header inside the data (five bytes or more before its
/// end) moves the next one to the 16-byte boundary after its block, any
/// other leaves it.
pub open spec fn msbt_walk_offset(data: Seq<u8>, be: bool, k: nat) -> int
    decreases k,
{
    if k == 0 {
        0x20
    } else {
        let o = msbt_walk_offset(data, be, (k - 1) as nat);
        if o + 4 < data.len() {
            next_block(o, spec_u32(data, o + 4, be))
        } else {
            o
        }
    }
}

/// Whether the `k`-th block header lies inside the data, so that it is read.
pub open spec fn msbt_walked(data: Seq<u8>, be: bool, k: nat) -> bool {
    msbt_walk_offset(data, be, k) + 4 < data.len()
}

/// The first of the `count` block headers that lies outside the data (from
/// there on no header is read), or `count` if every one lies inside; the
/// count stops early at a header inside the data whose size field runs past
/// its end, where reading the file fails.
pub fn first_unread_block(data: &[u8], big_endian: bool, count: u16) -> (r: u16)
    ensures
        r <= count,
        forall|k: nat| k < r ==> #[trigger] msbt_walked(data@, big_endian, k),
        r < count ==> !msbt_walked(data@, big_endian, r as nat) || msbt_walk_offset(data@, big_endian, r as nat) + 8
            > data@.len(),
{
    let len = data.len() as u128;
    let mut o: u128 = 0x20;
    let mut k: u16 = 0;
    while k < count
        invariant
            len == data@.len(),
            len <= usize::MAX,
            k <= count,
            o == msbt_walk_offset(data@, big_endian, k as nat),
            o <= len + 0x2_0000_0000,
            forall|k2: nat| k2 < k ==> #[trigger] msbt_walked(data@, big_endian, k2),
        decreases count - k,
    {
        if o + 4 >= len || o + 8 > len {
            return k;
        }
        let size = get_u32_order(data, o as usize + 4, big_endian);
        assert(msbt_walked(data@, big_endian, k as nat));
        o = ((o + 0x10 + size as u128 + 16) / 16) * 16;
        k = k + 1;
    }
    k
}

} // verus!
