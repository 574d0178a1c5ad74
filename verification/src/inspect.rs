//! What a dump of a BMG file shows: a summary of each section, and the
//! message flow graph walked chain by chain.

use vstd::prelude::*;

use crate::bmg_message::{copy_range, MessageText, PartView, text_view};
use crate::bmg_raw_parser::{
    BMGRawParser, BMGSectionData, BMGDataView, SectionRecord, SectionView, INF1Entry, FLW1Node,
    FLW1Data, FLW1View, FLI1Entry, spec_msg_at, spec_get_msg, entries_view, SECTION_COUNT, INF1, FLW1,
};
use crate::formatting::{get_raw_msg, raw_text};

verus! {

// ---------------------------------------------------------------------------
// Section summaries
// ---------------------------------------------------------------------------

/// What the dump shows of one section.
pub enum SectionSummary {
    /// The entry count and size, the number of entries read, and the first
    /// three entries.
    INF1 { count: u16, entry_size: u16, entry_len: usize, entries: Vec<INF1Entry> },
    /// The data length, the first ten bytes, and, where the file has an
    /// INF1 section, the texts of its first three messages.
    DAT1 { data_len: usize, head: Vec<u8>, messages: Option<Vec<MessageText>> },
    /// The identifier count and the first three identifiers.
    MID1 { count: u16, ids: Vec<u32> },
    /// The node and indirection counts, and the first three nodes and
    /// indirection entries.
    FLW1 { node_count: u16, ind_count: u16, nodes: Vec<FLW1Node>, indir: Vec<u16> },
    /// The entry count and the first three entries.
    FLI1 { count: u16, flow_entries: Vec<FLI1Entry> },
}

pub enum SummaryView {
    INF1 { count: u16, entry_size: u16, entry_len: nat, entries: Seq<(u32, Seq<u8>)> },
    DAT1 { data_len: nat, head: Seq<u8>, messages: Option<Seq<Seq<PartView>>> },
    MID1 { count: u16, ids: Seq<u32> },
    FLW1 { node_count: u16, ind_count: u16, nodes: Seq<FLW1Node>, indir: Seq<u16> },
    FLI1 { count: u16, flow_entries: Seq<FLI1Entry> },
}

pub open spec fn texts_view(v: Seq<MessageText>) -> Seq<Seq<PartView>> {
    v.map_values(|t: MessageText| text_view(t@))
}

impl View for SectionSummary {
    type V = SummaryView;

    open spec fn view(&self) -> SummaryView {
        match self {
            SectionSummary::INF1 { count, entry_size, entry_len, entries } => SummaryView::INF1 {
                count: *count,
                entry_size: *entry_size,
                entry_len: *entry_len as nat,
                entries: entries_view(entries@),
            },
            SectionSummary::DAT1 { data_len, head, messages } => SummaryView::DAT1 {
                data_len: *data_len as nat,
                head: head@,
                messages: match messages {
                    Some(m) => Some(texts_view(m@)),
                    None => None,
                },
            },
            SectionSummary::MID1 { count, ids } => SummaryView::MID1 { count: *count, ids: ids@ },
            SectionSummary::FLW1 { node_count, ind_count, nodes, indir } => SummaryView::FLW1 {
                node_count: *node_count,
                ind_count: *ind_count,
                nodes: nodes@,
                indir: indir@,
            },
            SectionSummary::FLI1 { count, flow_entries } => SummaryView::FLI1 {
                count: *count,
                flow_entries: flow_entries@,
            },
        }
    }
}

/// The texts of the first three messages of the INF1 entries `entries`,
/// read from the DAT1 bytes `bytes`; `None` where there are fewer than three
/// entries or a text cannot be read.
pub open spec fn first_texts(bytes: Seq<u8>, entries: Seq<(u32, Seq<u8>)>, code: u8) -> Option<Seq<Seq<PartView>>> {
    if entries.len() < 3 || bytes.len() > usize::MAX / 4 {
        None
    } else {
        match (
            spec_msg_at(bytes, entries[0].0 as int, code),
            spec_msg_at(bytes, entries[1].0 as int, code),
            spec_msg_at(bytes, entries[2].0 as int, code),
        ) {
            (Some(a), Some(b), Some(c)) => Some(seq![a, b, c]),
            _ => None,
        }
    }
}

/// The summary of a section of file `d`; `None` where a list it shows has
/// too few items, or a message it shows cannot be read.
pub open spec fn spec_summary(d: BMGDataView, data: SectionView) -> Option<SummaryView> {
    match data {
        SectionView::INF1(inf1) => if inf1.entries.len() < 3 {
            None
        } else {
            Some(
                SummaryView::INF1 {
                    count: inf1.count,
                    entry_size: inf1.entry_size,
                    entry_len: inf1.entries.len(),
                    entries: inf1.entries.take(3),
                },
            )
        },
        SectionView::DAT1(bytes) => if bytes.len() < 10 {
            None
        } else {
            match d.sections[INF1 as int] {
                Some(SectionRecord { data: SectionView::INF1(inf1), .. }) => match first_texts(
                    bytes,
                    inf1.entries,
                    d.header.encoding,
                ) {
                    None => None,
                    Some(m) => Some(
                        SummaryView::DAT1 { data_len: bytes.len(), head: bytes.take(10), messages: Some(m) },
                    ),
                },
                _ => Some(SummaryView::DAT1 { data_len: bytes.len(), head: bytes.take(10), messages: None }),
            }
        },
        SectionView::MID1(mid1) => if mid1.ids.len() < 3 {
            None
        } else {
            Some(SummaryView::MID1 { count: mid1.count, ids: mid1.ids.take(3) })
        },
        SectionView::FLW1(flw) => if flw.nodes.len() < 3 || flw.ind_table.len() < 3 {
            None
        } else {
            Some(
                SummaryView::FLW1 {
                    node_count: flw.node_count,
                    ind_count: flw.ind_count,
                    nodes: flw.nodes.take(3),
                    indir: flw.ind_table.take(3),
                },
            )
        },
        SectionView::FLI1(count, entries) => if entries.len() < 3 {
            None
        } else {
            Some(SummaryView::FLI1 { count, flow_entries: entries.take(3) })
        },
    }
}

/// One section of the dump: its header and its summary.
pub struct SectionReport {
    pub section_type: String,
    pub size: u32,
    pub range_start: usize,
    pub range_end: usize,
    pub summary: SectionSummary,
}

pub struct ReportView {
    pub section_type: Seq<char>,
    pub size: u32,
    pub range_start: int,
    pub range_end: int,
    pub summary: SummaryView,
}

impl View for SectionReport {
    type V = ReportView;

    open spec fn view(&self) -> ReportView {
        ReportView {
            section_type: self.section_type@,
            size: self.size,
            range_start: self.range_start as int,
            range_end: self.range_end as int,
            summary: self.summary@,
        }
    }
}

pub open spec fn reports_view(v: Seq<SectionReport>) -> Seq<ReportView> {
    v.map_values(|r: SectionReport| r@)
}

/// The reports of the sections found in slots `k` and after, in slot order.
pub open spec fn report_from(d: BMGDataView, k: int) -> Option<Seq<ReportView>>
    decreases SECTION_COUNT - k,
{
    if k >= SECTION_COUNT {
        Some(Seq::empty())
    } else {
        match d.sections[k] {
            None => report_from(d, k + 1),
            Some(rec) => match (spec_summary(d, rec.data), report_from(d, k + 1)) {
                (Some(s), Some(rest)) => Some(
                    seq![
                        ReportView {
                            section_type: rec.section_type,
                            size: rec.size,
                            range_start: rec.range_start,
                            range_end: rec.range_end,
                            summary: s,
                        },
                    ] + rest,
                ),
                _ => None,
            },
        }
    }
}

/// The report of every section found, in slot order; `None` where one of
/// them cannot be summarised (see [`spec_summary`]).
pub open spec fn spec_report(d: BMGDataView) -> Option<Seq<ReportView>> {
    report_from(d, 0)
}

fn copy_entry(e: &INF1Entry) -> (r: INF1Entry)
    ensures
        r@ == e@,
{
    let attributes = copy_range(e.attributes.as_slice(), 0, e.attributes.len());
    assert(attributes@ =~= e.attributes@);
    INF1Entry { offset: e.offset, attributes }
}

fn first_three<T: Copy>(v: &Vec<T>) -> (r: Vec<T>)
    requires
        v@.len() >= 3,
    ensures
        r@ == v@.take(3),
{
    let r = vec![v[0], v[1], v[2]];
    assert(r@ =~= v@.take(3));
    r
}

fn first_texts_exec(dat1: &Vec<u8>, entries: &Vec<INF1Entry>, code: u8) -> (r: Option<Vec<MessageText>>)
    ensures
        r matches Some(v) ==> first_texts(dat1@, entries_view(entries@), code) == Some(texts_view(v@)),
        r is None ==> first_texts(dat1@, entries_view(entries@), code) is None,
{
    if entries.len() < 3 || dat1.len() > usize::MAX / 4 {
        return None;
    }
    let d = crate::bmg_raw_parser::DAT1Data { data: copy_range(dat1.as_slice(), 0, dat1.len()) };
    assert(d.data@ =~= dat1@);
    let a = match d.get_msg_at(entries[0].offset as usize, code) {
        Some(t) => t,
        None => {
            return None;
        },
    };
    let b = match d.get_msg_at(entries[1].offset as usize, code) {
        Some(t) => t,
        None => {
            return None;
        },
    };
    let c = match d.get_msg_at(entries[2].offset as usize, code) {
        Some(t) => t,
        None => {
            return None;
        },
    };
    let r = vec![a, b, c];
    assert(texts_view(r@) =~= seq![text_view(a@), text_view(b@), text_view(c@)]);
    Some(r)
}

impl BMGRawParser {
    fn summarize(&self, data: &BMGSectionData) -> (r: Option<SectionSummary>)
        requires
            self.wf(),
        ensures
            r matches Some(s) ==> spec_summary(self@, data@) == Some(s@),
            r is None ==> spec_summary(self@, data@) is None,
    {
        match data {
            BMGSectionData::INF1(inf1) => {
                if inf1.entries.len() < 3 {
                    return None;
                }
                let entries = vec![
                    copy_entry(&inf1.entries[0]),
                    copy_entry(&inf1.entries[1]),
                    copy_entry(&inf1.entries[2]),
                ];
                assert(entries_view(entries@) =~= entries_view(inf1.entries@).take(3));
                Some(
                    SectionSummary::INF1 {
                        count: inf1.count,
                        entry_size: inf1.entry_size,
                        entry_len: inf1.entries.len(),
                        entries,
                    },
                )
            },
            BMGSectionData::DAT1(dat1) => {
                if dat1.data.len() < 10 {
                    return None;
                }
                let head = copy_range(dat1.data.as_slice(), 0, 10);
                let messages = match self.get_section(INF1) {
                    Some(BMGSectionData::INF1(inf1)) => {
                        match first_texts_exec(&dat1.data, &inf1.entries, self.get_header().encoding) {
                            None => {
                                return None;
                            },
                            Some(m) => Some(m),
                        }
                    },
                    _ => None,
                };
                Some(SectionSummary::DAT1 { data_len: dat1.data.len(), head, messages })
            },
            BMGSectionData::MID1(mid1) => {
                if mid1.ids.len() < 3 {
                    return None;
                }
                Some(SectionSummary::MID1 { count: mid1.count, ids: first_three(&mid1.ids) })
            },
            BMGSectionData::FLW1(flw) => {
                if flw.nodes.len() < 3 || flw.ind_table.len() < 3 {
                    return None;
                }
                Some(
                    SectionSummary::FLW1 {
                        node_count: flw.node_count,
                        ind_count: flw.ind_count,
                        nodes: first_three(&flw.nodes),
                        indir: first_three(&flw.ind_table),
                    },
                )
            },
            BMGSectionData::FLI1(fli) => {
                if fli.entries.len() < 3 {
                    return None;
                }
                Some(SectionSummary::FLI1 { count: fli.count, flow_entries: first_three(&fli.entries) })
            },
        }
    }

    /// The report of every section found, in slot order (see
    /// [`spec_report`]).
    pub fn report(&self) -> (r: Option<Vec<SectionReport>>)
        requires
            self.wf(),
        ensures
            r matches Some(v) ==> spec_report(self@) == Some(reports_view(v@)),
            r is None ==> spec_report(self@) is None,
    {
        let sections = self.get_sections();
        let mut out: Vec<SectionReport> = Vec::new();
        let mut k: usize = 0;
        assert(reports_view(out@) =~= Seq::<ReportView>::empty());
        while k < SECTION_COUNT
            invariant
                self.wf(),
                k <= SECTION_COUNT,
                crate::bmg_raw_parser::sections_view(sections@) == self@.sections,
                self@.sections.len() == SECTION_COUNT,
                match report_from(self@, 0) {
                    Some(all) => report_from(self@, k as int) matches Some(rest) && all == reports_view(out@)
                        + rest,
                    None => report_from(self@, k as int) is None,
                },
            decreases SECTION_COUNT - k,
        {
            assert(self@.sections[k as int] == crate::bmg_raw_parser::section_slot_view(sections@[k as int]));
            match &sections[k] {
                None => {},
                Some(sec) => {
                    match self.summarize(&sec.data) {
                        None => {
                            return None;
                        },
                        Some(summary) => {
                            let ghost before = reports_view(out@);
                            let rep = SectionReport {
                                section_type: sec.section_type.clone(),
                                size: sec.size,
                                range_start: sec.range_start,
                                range_end: sec.range_end,
                                summary,
                            };
                            out.push(rep);
                            assert(reports_view(out@) =~= before.push(rep@));
                            proof {
                                if let Some(rest) = report_from(self@, k + 1) {
                                    assert(before + (seq![rep@] + rest) =~= reports_view(out@) + rest);
                                }
                            }
                        },
                    }
                },
            }
            k = k + 1;
        }
        proof {
            if let Some(all) = report_from(self@, 0) {
                assert(reports_view(out@) + Seq::<ReportView>::empty() =~= reports_view(out@));
            }
        }
        Some(out)
    }
}


// ---------------------------------------------------------------------------
// The flow graph, chain by chain
// ---------------------------------------------------------------------------

/// One line of the flow listing.
pub enum FlowLine {
    /// The start of a chain.
    Separator,
    /// A message node: the INF1 index it shows and the message's plain text.
    Message { inf1_idx: u16, text: String },
    /// A branch node.
    Branch,
    /// An event node and its event function.
    Event { event_fn: u8 },
}

pub enum FlowLineView {
    Separator,
    Message(u16, Seq<char>),
    Branch,
    Event(u8),
}

impl View for FlowLine {
    type V = FlowLineView;

    open spec fn view(&self) -> FlowLineView {
        match self {
            FlowLine::Separator => FlowLineView::Separator,
            FlowLine::Message { inf1_idx, text } => FlowLineView::Message(*inf1_idx, text@),
            FlowLine::Branch => FlowLineView::Branch,
            FlowLine::Event { event_fn } => FlowLineView::Event(*event_fn),
        }
    }
}

pub open spec fn flow_view(v: Seq<FlowLine>) -> Seq<FlowLineView> {
    v.map_values(|l: FlowLine| l@)
}

/// The successor that an indirection entry names; 0xFFFF ends the chain.
pub open spec fn successor(n: u16) -> Option<int> {
    if n != 0xFFFF {
        Some(n as int)
    } else {
        None
    }
}

/// The line of node `i` of the flow graph `flw` of file `d`, and the node
/// that follows it: a message node shows its message (read as by
/// [`spec_get_msg`]) and names its successor itself; branch and event nodes
/// name theirs through the indirection table. `None` where the message
/// cannot be read or the indirection entry does not exist.
pub open spec fn flow_step(d: BMGDataView, flw: FLW1View, i: int) -> Option<(FlowLineView, Option<int>)> {
    match flw.nodes[i] {
        FLW1Node::Continuation { inf1_idx, next_node, .. } => match spec_get_msg(d, inf1_idx as int) {
            None => None,
            Some(m) => Some((FlowLineView::Message(inf1_idx, raw_text(m.text, None)), successor(next_node))),
        },
        FLW1Node::Branch { indir_offset, .. } => if indir_offset >= flw.ind_table.len() {
            None
        } else {
            Some((FlowLineView::Branch, successor(flw.ind_table[indir_offset as int])))
        },
        FLW1Node::Event { event_fn, indir_idx, .. } => if indir_idx >= flw.ind_table.len() {
            None
        } else {
            Some((FlowLineView::Event(event_fn), successor(flw.ind_table[indir_idx as int])))
        },
    }
}

/// The chain that starts at node `i`, given the nodes already visited: its
/// lines, and the visited nodes after it (those of the chain added). `None`
/// where a node lies outside the graph, a step fails, or the chain runs
/// longer than `fuel` nodes.
pub open spec fn flow_chain(d: BMGDataView, flw: FLW1View, i: int, visited: Seq<bool>, fuel: nat) -> Option<
    (Seq<FlowLineView>, Seq<bool>),
>
    decreases fuel,
{
    if fuel == 0 || i < 0 || i >= visited.len() || i >= flw.nodes.len() {
        None
    } else {
        let v2 = visited.update(i, true);
        match flow_step(d, flw, i) {
            None => None,
            Some((line, None)) => Some((seq![line], v2)),
            Some((line, Some(n))) => match flow_chain(d, flw, n, v2, (fuel - 1) as nat) {
                None => None,
                Some((ls, v3)) => Some((seq![line] + ls, v3)),
            },
        }
    }
}

/// A chain of more nodes than the graph has must pass a node twice, and
/// then goes round for ever: one more than the node count is fuel enough
/// for every chain that ends.
pub open spec fn chain_fuel(flw: FLW1View) -> nat {
    flw.node_count as nat + 1
}

/// The first node at or after `k` that is not visited yet and is a message
/// node: `Some(None)` when there is none, `None` where an unvisited index
/// lies outside the nodes read.
pub open spec fn flow_pick(flw: FLW1View, visited: Seq<bool>, k: int) -> Option<Option<int>>
    decreases visited.len() - k,
{
    if k < 0 || k >= visited.len() {
        Some(None)
    } else if visited[k] {
        flow_pick(flw, visited, k + 1)
    } else if k >= flw.nodes.len() {
        None
    } else if flw.nodes[k] is Continuation {
        Some(Some(k))
    } else {
        flow_pick(flw, visited, k + 1)
    }
}

/// The number of nodes not visited yet.
pub open spec fn unvisited(v: Seq<bool>) -> nat
    decreases v.len(),
{
    if v.len() == 0 {
        0
    } else {
        unvisited(v.drop_last()) + if v.last() {
            0nat
        } else {
            1nat
        }
    }
}

/// Whether `b` marks every node that `a` marks, and the same number of nodes.
pub open spec fn grows(a: Seq<bool>, b: Seq<bool>) -> bool {
    a.len() == b.len() && forall|j: int| 0 <= j < a.len() && a[j] ==> #[trigger] b[j]
}

pub proof fn lemma_unvisited_shrinks(a: Seq<bool>, b: Seq<bool>, i: int)
    requires
        grows(a, b),
        0 <= i < a.len(),
        !a[i],
        b[i],
    ensures
        unvisited(b) < unvisited(a),
    decreases a.len(),
{
    lemma_unvisited_grows(a.drop_last(), b.drop_last());
    if i < a.len() - 1 {
        lemma_unvisited_shrinks(a.drop_last(), b.drop_last(), i);
    }
}

pub proof fn lemma_unvisited_grows(a: Seq<bool>, b: Seq<bool>)
    requires
        grows(a, b),
    ensures
        unvisited(b) <= unvisited(a),
    decreases a.len(),
{
    if a.len() > 0 {
        assert(grows(a.drop_last(), b.drop_last())) by {
            assert forall|j: int| 0 <= j < a.len() - 1 && a.drop_last()[j] implies #[trigger] b.drop_last()[j] by {
                assert(a[j] && b[j] == b.drop_last()[j]);
            }
        }
        lemma_unvisited_grows(a.drop_last(), b.drop_last());
    }
}

pub proof fn lemma_chain_marks(d: BMGDataView, flw: FLW1View, i: int, visited: Seq<bool>, fuel: nat)
    ensures
        flow_chain(d, flw, i, visited, fuel) matches Some((ls, v2)) ==> grows(visited, v2) && 0 <= i
            < visited.len() && v2[i],
    decreases fuel,
{
    if !(fuel == 0 || i < 0 || i >= visited.len() || i >= flw.nodes.len()) {
        let v2 = visited.update(i, true);
        if let Some((line, Some(n))) = flow_step(d, flw, i) {
            lemma_chain_marks(d, flw, n, v2, (fuel - 1) as nat);
            if let Some((ls, v3)) = flow_chain(d, flw, n, v2, (fuel - 1) as nat) {
                assert(grows(visited, v3)) by {
                    assert forall|j: int| 0 <= j < visited.len() && visited[j] implies #[trigger] v3[j] by {
                        assert(v2[j]);
                    }
                }
                assert(v3[i]) by {
                    assert(v2[i]);
                }
            }
        }
    }
}

pub proof fn lemma_flow_pick(flw: FLW1View, visited: Seq<bool>, k: int)
    ensures
        flow_pick(flw, visited, k) matches Some(Some(idx)) ==> 0 <= idx < visited.len() && !visited[idx],
    decreases visited.len() - k,
{
    if 0 <= k < visited.len() && (visited[k] || (k < flw.nodes.len() && !(flw.nodes[k] is Continuation))) {
        lemma_flow_pick(flw, visited, k + 1);
    }
}

/// The flow listing from the given visited nodes on: while an unvisited
/// message node remains, the first of them starts a new chain, shown after
/// a separator.
pub open spec fn flow_loop(d: BMGDataView, flw: FLW1View, visited: Seq<bool>) -> Option<Seq<FlowLineView>>
    decreases unvisited(visited),
{
    match flow_pick(flw, visited, 0) {
        None => None,
        Some(None) => Some(Seq::empty()),
        Some(Some(idx)) => match flow_chain(d, flw, idx, visited, chain_fuel(flw)) {
            None => None,
            Some((ls, v2)) => {
                proof {
                    lemma_flow_pick(flw, visited, 0);
                    lemma_chain_marks(d, flw, idx, visited, chain_fuel(flw));
                    lemma_unvisited_shrinks(visited, v2, idx);
                }
                match flow_loop(d, flw, v2) {
                    None => None,
                    Some(rest) => Some(seq![FlowLineView::Separator] + ls + rest),
                }
            },
        },
    }
}

/// The flow listing of file `d`: every chain of its FLW1 graph, each from
/// the first message node not yet shown; nothing when there is no FLW1
/// section. `None` where a chain fails (see [`flow_chain`]).
pub open spec fn spec_flow(d: BMGDataView) -> Option<Seq<FlowLineView>> {
    match d.sections[FLW1 as int] {
        Some(SectionRecord { data: SectionView::FLW1(flw), .. }) => flow_loop(
            d,
            flw,
            Seq::new(flw.node_count as nat, |_j: int| false),
        ),
        _ => Some(Seq::empty()),
    }
}

pub open spec fn prepend_lines(a: Seq<FlowLineView>, o: Option<(Seq<FlowLineView>, Seq<bool>)>) -> Option<
    (Seq<FlowLineView>, Seq<bool>),
> {
    match o {
        Some((ls, v)) => Some((a + ls, v)),
        None => None,
    }
}

fn flow_pick_exec(flw: &FLW1Data, visited: &Vec<bool>) -> (r: Option<Option<usize>>)
    ensures
        r is None <==> flow_pick(flw@, visited@, 0) is None,
        r == Some(Option::<usize>::None) <==> flow_pick(flw@, visited@, 0) == Some(Option::<int>::None),
        r matches Some(Some(j)) ==> flow_pick(flw@, visited@, 0) == Some(Some(j as int)),
{
    let mut k: usize = 0;
    while k < visited.len()
        invariant
            k <= visited@.len(),
            flow_pick(flw@, visited@, 0) == flow_pick(flw@, visited@, k as int),
        decreases visited@.len() - k,
    {
        if !visited[k] {
            if k >= flw.nodes.len() {
                return None;
            }
            if let FLW1Node::Continuation { .. } = flw.nodes[k] {
                return Some(Some(k));
            }
        }
        k = k + 1;
    }
    Some(None)
}

impl BMGRawParser {
    /// Adds the lines of the chain that starts at node `start` to `out`.
    fn flow_chain_exec(&self, flw: &FLW1Data, start: usize, visited: &mut Vec<bool>, out: &mut Vec<FlowLine>) -> (ok: bool)
        requires
            self.wf(),
        ensures
            ok ==> prepend_lines(flow_view(old(out)@), flow_chain(self@, flw@, start as int, old(visited)@, chain_fuel(flw@)))
                == Some((flow_view(final(out)@), final(visited)@)),
            !ok ==> flow_chain(self@, flw@, start as int, old(visited)@, chain_fuel(flw@)) is None,
    {
        let ghost target = flow_chain(self@, flw@, start as int, visited@, chain_fuel(flw@));
        let ghost out0 = flow_view(out@);
        let mut cur = start;
        let mut fuel: usize = flw.node_count as usize + 1;
        assert(prepend_lines(out0, target) == prepend_lines(flow_view(out@), target)) by {
            if let Some((ls, v)) = target {
                assert(out0 + ls =~= flow_view(out@) + ls);
            }
        }
        assert(target == prepend_lines(Seq::empty(), target)) by {
            if let Some((ls, v)) = target {
                assert(Seq::<FlowLineView>::empty() + ls =~= ls);
            }
        }
        loop
            invariant
                self.wf(),
                out0 == flow_view(old(out)@),
                fuel <= flw.node_count as usize + 1,
                prepend_lines(out0, target) == prepend_lines(
                    flow_view(out@),
                    flow_chain(self@, flw@, cur as int, visited@, fuel as nat),
                ),
                target == flow_chain(self@, flw@, start as int, old(visited)@, chain_fuel(flw@)),
                target is None ==> flow_chain(self@, flw@, cur as int, visited@, fuel as nat) is None,
            decreases fuel,
        {
            let ghost before = flow_view(out@);
            let ghost vis = visited@;
            if fuel == 0 || cur >= visited.len() || cur >= flw.nodes.len() {
                return false;
            }
            visited.set(cur, true);
            let next: u16 = match flw.nodes[cur] {
                FLW1Node::Continuation { inf1_idx, next_node, .. } => {
                    let m = match self.try_get_msg(inf1_idx as usize) {
                        Some(m) => m,
                        None => {
                            return false;
                        },
                    };
                    let text = get_raw_msg(&m.text, None);
                    out.push(FlowLine::Message { inf1_idx, text });
                    next_node
                },
                FLW1Node::Branch { indir_offset, .. } => {
                    if indir_offset as usize >= flw.ind_table.len() {
                        return false;
                    }
                    out.push(FlowLine::Branch);
                    flw.ind_table[indir_offset as usize]
                },
                FLW1Node::Event { event_fn, indir_idx, .. } => {
                    if indir_idx as usize >= flw.ind_table.len() {
                        return false;
                    }
                    out.push(FlowLine::Event { event_fn });
                    flw.ind_table[indir_idx as usize]
                },
            };
            let ghost line = out@.last()@;
            assert(flow_view(out@) =~= before.push(line));
            assert(flow_step(self@, flw@, cur as int) == Some((line, successor(next))));
            if next == 0xFFFF {
                assert(flow_chain(self@, flw@, cur as int, vis, fuel as nat) == Some((seq![line], visited@)));
                assert(before + seq![line] =~= flow_view(out@));
                return true;
            }
            proof {
                if let Some((ls, v3)) = flow_chain(self@, flw@, next as int, visited@, (fuel - 1) as nat) {
                    assert(before + (seq![line] + ls) =~= flow_view(out@) + ls);
                }
            }
            cur = next as usize;
            fuel = fuel - 1;
        }
    }

    /// The flow listing of the file (see [`spec_flow`]).
    pub fn flow_report(&self) -> (r: Option<Vec<FlowLine>>)
        requires
            self.wf(),
        ensures
            r matches Some(v) ==> spec_flow(self@) == Some(flow_view(v@)),
            r is None ==> spec_flow(self@) is None,
    {
        let flw = match self.get_section(FLW1) {
            Some(BMGSectionData::FLW1(flw)) => flw,
            _ => {
                let out: Vec<FlowLine> = Vec::new();
                assert(flow_view(out@) =~= Seq::<FlowLineView>::empty());
                return Some(out);
            },
        };
        let mut visited: Vec<bool> = Vec::new();
        let mut j: usize = 0;
        while j < flw.node_count as usize
            invariant
                j <= flw.node_count,
                visited@ =~= Seq::new(j as nat, |_j: int| false),
            decreases flw.node_count - j,
        {
            visited.push(false);
            j = j + 1;
        }
        let ghost target = spec_flow(self@);
        assert(target == flow_loop(self@, flw@, visited@));
        let mut out: Vec<FlowLine> = Vec::new();
        assert(target == prepend_flow(flow_view(out@), flow_loop(self@, flw@, visited@))) by {
            if let Some(t) = target {
                assert(Seq::<FlowLineView>::empty() + t =~= t);
            }
        }
        loop
            invariant
                self.wf(),
                target == spec_flow(self@),
                target == prepend_flow(flow_view(out@), flow_loop(self@, flw@, visited@)),
            decreases unvisited(visited@),
        {
            let ghost before = flow_view(out@);
            let ghost vis = visited@;
            let idx = match flow_pick_exec(flw, &visited) {
                None => {
                    return None;
                },
                Some(None) => {
                    proof {
                        if let Some(t) = target {
                            assert(before + Seq::<FlowLineView>::empty() =~= before);
                        }
                    }
                    return Some(out);
                },
                Some(Some(i)) => i,
            };
            proof {
                lemma_flow_pick(flw@, vis, 0);
            }
            out.push(FlowLine::Separator);
            let ghost mid = flow_view(out@);
            assert(mid =~= before.push(FlowLineView::Separator));
            if !self.flow_chain_exec(flw, idx, &mut visited, &mut out) {
                return None;
            }
            proof {
                lemma_chain_marks(self@, flw@, idx as int, vis, chain_fuel(flw@));
                let (ls, v2) = flow_chain(self@, flw@, idx as int, vis, chain_fuel(flw@)).unwrap();
                lemma_unvisited_shrinks(vis, v2, idx as int);
                assert(flow_view(out@) == mid + ls);
                if let Some(rest) = flow_loop(self@, flw@, v2) {
                    assert(before + (seq![FlowLineView::Separator] + ls + rest) =~= flow_view(out@) + rest);
                }
            }
        }
    }
}

pub open spec fn prepend_flow(a: Seq<FlowLineView>, o: Option<Seq<FlowLineView>>) -> Option<Seq<FlowLineView>> {
    match o {
        Some(r) => Some(a + r),
        None => None,
    }
}


// ---------------------------------------------------------------------------
// Laws of the flow listing
// ---------------------------------------------------------------------------

/// Whether the listing `ls` shows the message with INF1 index `inf1_idx`.
pub open spec fn lists_message(ls: Seq<FlowLineView>, inf1_idx: u16) -> bool {
    exists|k: int| 0 <= k < ls.len() && #[trigger] ls[k] == FlowLineView::Message(inf1_idx, msg_line_text(ls[k]))
}

/// The text of a message line (empty for other lines).
pub open spec fn msg_line_text(l: FlowLineView) -> Seq<char> {
    match l {
        FlowLineView::Message(_, t) => t,
        _ => Seq::empty(),
    }
}

/// Whether node `j` is a message node showing INF1 index `inf1_idx`.
pub open spec fn message_node(flw: FLW1View, j: int, inf1_idx: u16) -> bool {
    &&& 0 <= j < flw.nodes.len()
    &&& flw.nodes[j] matches FLW1Node::Continuation { inf1_idx: k, .. }
    &&& k == inf1_idx
}

proof fn lemma_lists_in_suffix(a: Seq<FlowLineView>, b: Seq<FlowLineView>, inf1_idx: u16)
    requires
        lists_message(b, inf1_idx),
    ensures
        lists_message(a + b, inf1_idx),
{
    let k = choose|k: int| 0 <= k < b.len() && #[trigger] b[k] == FlowLineView::Message(inf1_idx, msg_line_text(b[k]));
    assert((a + b)[a.len() + k] == b[k]);
}

proof fn lemma_lists_in_prefix(a: Seq<FlowLineView>, b: Seq<FlowLineView>, inf1_idx: u16)
    requires
        lists_message(a, inf1_idx),
    ensures
        lists_message(a + b, inf1_idx),
{
    let k = choose|k: int| 0 <= k < a.len() && #[trigger] a[k] == FlowLineView::Message(inf1_idx, msg_line_text(a[k]));
    assert((a + b)[k] == a[k]);
}

/// A chain lists every message node that it visits for the first time.
proof fn lemma_chain_lists(d: BMGDataView, flw: FLW1View, i: int, visited: Seq<bool>, fuel: nat, j: int, inf1_idx: u16)
    requires
        flow_chain(d, flw, i, visited, fuel) is Some,
        0 <= j < visited.len(),
        !visited[j],
        flow_chain(d, flw, i, visited, fuel).unwrap().1[j],
        message_node(flw, j, inf1_idx),
    ensures
        lists_message(flow_chain(d, flw, i, visited, fuel).unwrap().0, inf1_idx),
    decreases fuel,
{
    let v2 = visited.update(i, true);
    let (ls, v3) = flow_chain(d, flw, i, visited, fuel).unwrap();
    let (line, next) = flow_step(d, flw, i).unwrap();
    if j == i {
        assert(ls[0] == line);
        assert(ls[0] == FlowLineView::Message(inf1_idx, msg_line_text(ls[0])));
    } else {
        match next {
            None => {
                assert(v3 == v2);
                assert(v2[j] == visited[j]);
            },
            Some(n) => {
                assert(v2[j] == visited[j]);
                lemma_chain_lists(d, flw, n, v2, (fuel - 1) as nat, j, inf1_idx);
                let (rest, _) = flow_chain(d, flw, n, v2, (fuel - 1) as nat).unwrap();
                lemma_lists_in_suffix(seq![line], rest, inf1_idx);
            },
        }
    }
}

proof fn lemma_loop_lists(d: BMGDataView, flw: FLW1View, visited: Seq<bool>, j: int, inf1_idx: u16)
    requires
        flow_loop(d, flw, visited) is Some,
        0 <= j < visited.len(),
        !visited[j],
        message_node(flw, j, inf1_idx),
    ensures
        lists_message(flow_loop(d, flw, visited).unwrap(), inf1_idx),
    decreases unvisited(visited),
{
    lemma_pick_none(flw, visited, 0, j);
    let idx = flow_pick(flw, visited, 0).unwrap().unwrap();
    lemma_flow_pick(flw, visited, 0);
    lemma_chain_marks(d, flw, idx, visited, chain_fuel(flw));
    let (ls, v2) = flow_chain(d, flw, idx, visited, chain_fuel(flw)).unwrap();
    lemma_unvisited_shrinks(visited, v2, idx);
    let rest = flow_loop(d, flw, v2).unwrap();
    assert(flow_loop(d, flw, visited).unwrap() == seq![FlowLineView::Separator] + ls + rest);
    if v2[j] {
        lemma_chain_lists(d, flw, idx, visited, chain_fuel(flw), j, inf1_idx);
        lemma_lists_in_suffix(seq![FlowLineView::Separator], ls, inf1_idx);
        lemma_lists_in_prefix(seq![FlowLineView::Separator] + ls, rest, inf1_idx);
    } else {
        lemma_loop_lists(d, flw, v2, j, inf1_idx);
        lemma_lists_in_suffix(seq![FlowLineView::Separator] + ls, rest, inf1_idx);
    }
}

/// While an unvisited message node remains at or after `k`, picking finds one.
proof fn lemma_pick_none(flw: FLW1View, visited: Seq<bool>, k: int, j: int)
    requires
        0 <= k <= j < visited.len(),
        !visited[j],
        message_node(flw, j, flw.nodes[j]->Continuation_inf1_idx),
    ensures
        flow_pick(flw, visited, k) is Some ==> flow_pick(flw, visited, k) matches Some(Some(_)),
    decreases visited.len() - k,
{
    if k < j && (visited[k] || (k < flw.nodes.len() && !(flw.nodes[k] is Continuation))) {
        lemma_pick_none(flw, visited, k + 1, j);
    }
}

/// When the flow listing succeeds, it shows every message node of the
/// graph (every node counted by the section and read from it).
pub proof fn law_flow_lists_every_message_node(d: BMGDataView, j: int, inf1_idx: u16)
    requires
        spec_flow(d) is Some,
        d.sections[FLW1 as int] matches Some(SectionRecord { data: SectionView::FLW1(flw), .. }) && (j
            < flw.node_count && message_node(flw, j, inf1_idx)),
    ensures
        lists_message(spec_flow(d).unwrap(), inf1_idx),
{
    if let Some(SectionRecord { data: SectionView::FLW1(flw), .. }) = d.sections[FLW1 as int] {
        let v = Seq::new(flw.node_count as nat, |_j: int| false);
        assert(!v[j]);
        lemma_loop_lists(d, flw, v, j, inf1_idx);
    }
}

} // verus!
