use vstd::prelude::*;

use crate::bmg_message::{
    all_zero, default_message, duplicate_text, Message, MessageSingleLang, MessageText,
    MessageView, PartView, SingleView,
};

verus! {

/// The number of message banks (files) per game.
pub const BANK_COUNT: usize = 10;

/// Messages of every language, gathered bank by bank: message `id` of a bank
/// stands at index `id - 1`, with one text per language.
pub struct BMGParser {
    msgs: Vec<Vec<Message>>,
}

pub open spec fn bank_view(b: Seq<Message>) -> Seq<MessageView> {
    b.map_values(|m: Message| m@)
}

impl View for BMGParser {
    type V = Seq<Seq<MessageView>>;

    closed spec fn view(&self) -> Seq<Seq<MessageView>> {
        self.msgs@.map_values(|b: Vec<Message>| bank_view(b@))
    }
}

/// Whether a single-language message carries nothing: no text and only
/// zero attribute bytes.
pub open spec fn single_is_empty(m: SingleView) -> bool {
    m.text.len() == 0 && all_zero(m.attribs)
}

/// Where a message goes in its bank: before its identifier if that is
/// positive, else after the last message.
pub open spec fn add_index(bank: Seq<MessageView>, m: SingleView) -> int {
    if m.id > 0 {
        m.id - 1
    } else {
        bank.len() as int
    }
}

/// The bank extended with default messages to at least `n` messages.
pub open spec fn grow_bank(bank: Seq<MessageView>, n: int) -> Seq<MessageView> {
    if n > bank.len() {
        bank + Seq::new((n - bank.len()) as nat, |i: int| default_message())
    } else {
        bank
    }
}

/// The texts extended with empty texts to at least `n` languages.
pub open spec fn grow_texts(text: Seq<Seq<PartView>>, n: int) -> Seq<Seq<PartView>> {
    if n > text.len() {
        text + Seq::new((n - text.len()) as nat, |i: int| Seq::<PartView>::empty())
    } else {
        text
    }
}

/// Adding message `m` in language `lang` to an entry: the entry takes the
/// identifier of `m`, takes its attributes if it has only zero attribute
/// bytes, and takes its text in `lang` unless it already has a text there.
pub open spec fn spec_merge_entry(e: MessageView, m: SingleView, lang: int) -> MessageView {
    let t1 = grow_texts(e.text, lang + 1);
    MessageView {
        text: if t1[lang].len() != 0 { t1 } else { t1.update(lang, m.text) },
        attribs: if all_zero(e.attribs) { m.attribs } else { e.attribs },
        id: m.id,
    }
}

/// Adding message `m` in language `lang` to a bank: an empty message
/// changes nothing; otherwise the bank grows to hold the message's index
/// and the entry there merges `m` (see [`spec_merge_entry`]).
pub open spec fn spec_add_to_bank(bank: Seq<MessageView>, m: SingleView, lang: int) -> Seq<MessageView> {
    if single_is_empty(m) {
        bank
    } else {
        let idx = add_index(bank, m);
        let b1 = grow_bank(bank, idx + 1);
        b1.update(idx, spec_merge_entry(b1[idx], m, lang))
    }
}

/// Whether adding message `m` in language `lang` finds a text already in
/// its place: the message is not empty and its entry already has a text in
/// `lang`.
pub open spec fn spec_slot_taken(bank: Seq<MessageView>, m: SingleView, lang: int) -> bool {
    let idx = add_index(bank, m);
    &&& !single_is_empty(m)
    &&& grow_texts(grow_bank(bank, idx + 1)[idx].text, lang + 1)[lang].len() != 0
}

fn grow_bank_exec(bank: &mut Vec<Message>, n: usize)
    ensures
        bank_view(final(bank)@) == grow_bank(bank_view(old(bank)@), n as int),
{
    let ghost start = bank_view(bank@);
    while bank.len() < n
        invariant
            bank_view(bank@) == grow_bank(start, bank@.len() as int),
            start.len() <= bank@.len(),
            bank@.len() <= n || bank@.len() == start.len(),
        decreases n - bank@.len(),
    {
        let ghost before = bank_view(bank@);
        bank.push(Message::new_default());
        assert(bank_view(bank@) =~= before.push(default_message()));
        assert(grow_bank(start, bank@.len() as int) =~= grow_bank(start, bank@.len() - 1).push(default_message()));
    }
    assert(grow_bank(start, n as int) =~= grow_bank(start, bank@.len() as int));
}

fn merge_entry(entry: &mut Message, msg: &MessageSingleLang, lang_idx: usize) -> (taken: bool)
    requires
        lang_idx < usize::MAX,
    ensures
        final(entry)@ == spec_merge_entry(old(entry)@, msg@, lang_idx as int),
        taken == (grow_texts(old(entry)@.text, lang_idx + 1)[lang_idx as int].len() != 0),
{
    entry.id = msg.id;
    if entry.attribs.is_empty() {
        entry.attribs = msg.attribs.duplicate();
    }
    let ghost start = entry@.text;
    let ghost attribs = entry@.attribs;
    assert(attribs == (if all_zero(old(entry)@.attribs) { msg@.attribs } else { old(entry)@.attribs }));
    while entry.text.len() < lang_idx + 1
        invariant
            lang_idx < usize::MAX,
            entry@.attribs == attribs,
            entry@.id == msg.id,
            entry@.text == grow_texts(start, entry@.text.len() as int),
            start.len() <= entry@.text.len(),
            entry@.text.len() <= lang_idx + 1 || entry@.text.len() == start.len(),
        decreases lang_idx + 1 - entry@.text.len(),
    {
        let ghost before = entry@.text;
        let empty: MessageText = Vec::new();
        assert(crate::bmg_message::text_view(empty@) =~= Seq::<PartView>::empty());
        entry.text.push(empty);
        assert(entry@.text =~= before.push(Seq::<PartView>::empty()));
        assert(grow_texts(start, entry@.text.len() as int) =~= grow_texts(start, entry@.text.len() - 1).push(
            Seq::<PartView>::empty(),
        ));
    }
    assert(grow_texts(start, lang_idx + 1) =~= grow_texts(start, entry@.text.len() as int));
    assert(entry@.text[lang_idx as int].len() == entry.text@[lang_idx as int]@.len());
    if entry.text[lang_idx].len() == 0 {
        let ghost before = entry@.text;
        entry.text.set(lang_idx, duplicate_text(&msg.text));
        assert(entry@.text =~= before.update(lang_idx as int, msg@.text));
        false
    } else {
        true
    }
}

impl BMGParser {
    /// The parser holds one bank per bank number.
    pub closed spec fn wf(&self) -> bool {
        self.msgs@.len() == BANK_COUNT
    }

    /// A well-formed parser has one bank per bank number.
    pub proof fn lemma_bank_count(&self)
        requires
            self.wf(),
        ensures
            self@.len() == BANK_COUNT,
    {
    }

    /// A parser with every bank empty.
    pub fn new() -> (r: BMGParser)
        ensures
            r.wf(),
            r@ == Seq::new(BANK_COUNT as nat, |i: int| Seq::<MessageView>::empty()),
    {
        let mut msgs: Vec<Vec<Message>> = Vec::new();
        let mut i: usize = 0;
        while i < BANK_COUNT
            invariant
                i <= BANK_COUNT,
                msgs@.len() == i,
                forall|j: int| 0 <= j < i ==> (#[trigger] msgs@[j])@.len() == 0,
            decreases BANK_COUNT - i,
        {
            msgs.push(Vec::new());
            i = i + 1;
        }
        let r = BMGParser { msgs };
        assert forall|j: int| 0 <= j < BANK_COUNT implies #[trigger] r@[j] == Seq::<MessageView>::empty() by {
            assert(bank_view(r.msgs@[j]@) =~= Seq::<MessageView>::empty());
        }
        assert(r@ =~= Seq::new(BANK_COUNT as nat, |i: int| Seq::<MessageView>::empty()));
        r
    }

    /// The messages of bank `bank_id`.
    pub fn bank(&self, bank_id: usize) -> (r: &Vec<Message>)
        requires
            self.wf(),
            bank_id < BANK_COUNT,
        ensures
            bank_view(r@) == self@[bank_id as int],
    {
        &self.msgs[bank_id]
    }

    /// Adds a message in language `lang_idx` to bank `bank_id` (see
    /// [`spec_add_to_bank`]). Where the entry already has a text in that
    /// language, the text is kept and the entry's index is returned. A
    /// message that carries nothing changes nothing, whatever the bank.
    pub fn add_message(&mut self, msg: &MessageSingleLang, lang_idx: usize, bank_id: usize) -> (r: Option<usize>)
        requires
            old(self).wf(),
            !single_is_empty(msg@) ==> bank_id < BANK_COUNT && lang_idx < usize::MAX && old(
                self,
            )@[bank_id as int].len() < usize::MAX,
        ensures
            final(self).wf(),
            single_is_empty(msg@) ==> final(self)@ == old(self)@,
            !single_is_empty(msg@) ==> final(self)@ == old(self)@.update(
                bank_id as int,
                spec_add_to_bank(old(self)@[bank_id as int], msg@, lang_idx as int),
            ),
            r is Some <==> spec_slot_taken(old(self)@[bank_id as int], msg@, lang_idx as int),
            r matches Some(idx) ==> idx == add_index(old(self)@[bank_id as int], msg@),
    {
        if msg.is_empty() {
            return None;
        }
        let ghost old_view = self@;
        let idx: usize = if msg.id > 0 { msg.id - 1 } else { self.msgs[bank_id].len() };
        let bank = &mut self.msgs[bank_id];
        grow_bank_exec(bank, idx + 1);
        let ghost grown = bank_view(bank@);
        assert(grown.len() == bank@.len());
        assert(idx < grown.len());
        let taken = merge_entry(&mut bank[idx], msg, lang_idx);
        assert(bank_view(bank@) =~= grown.update(idx as int, spec_merge_entry(grown[idx as int], msg@, lang_idx as int)));
        assert(self@ =~= old_view.update(bank_id as int, spec_add_to_bank(old_view[bank_id as int], msg@, lang_idx as int)));
        if taken {
            Some(idx)
        } else {
            None
        }
    }
}


// ---------------------------------------------------------------------------
// Laws of adding messages
// ---------------------------------------------------------------------------

/// Adding a message that carries nothing (no text, only zero attribute
/// bytes) leaves the bank as it was.
pub proof fn law_empty_message_changes_nothing(bank: Seq<MessageView>, m: SingleView, lang: nat)
    requires
        single_is_empty(m),
    ensures
        spec_add_to_bank(bank, m, lang as int) == bank,
{
}

/// A message added to a free place can be read back: its entry (at its
/// identifier less one, or after the last entry for identifier 0) holds its
/// identifier and, in the language it was added in, its text.
pub proof fn law_added_text_is_read_back(bank: Seq<MessageView>, m: SingleView, lang: nat)
    requires
        !single_is_empty(m),
        !spec_slot_taken(bank, m, lang as int),
    ensures
        0 <= add_index(bank, m) < spec_add_to_bank(bank, m, lang as int).len(),
        spec_add_to_bank(bank, m, lang as int)[add_index(bank, m)].id == m.id,
        lang < spec_add_to_bank(bank, m, lang as int)[add_index(bank, m)].text.len(),
        spec_add_to_bank(bank, m, lang as int)[add_index(bank, m)].text[lang as int] == m.text,
{
}

/// The first text given for a language stays: adding a message whose place
/// already has a text in that language changes no text of that entry.
pub proof fn law_first_text_wins(bank: Seq<MessageView>, m: SingleView, lang: nat)
    requires
        spec_slot_taken(bank, m, lang as int),
        add_index(bank, m) < bank.len(),
    ensures
        spec_add_to_bank(bank, m, lang as int)[add_index(bank, m)].text == grow_texts(
            bank[add_index(bank, m)].text,
            lang + 1 as int,
        ),
        spec_add_to_bank(bank, m, lang as int)[add_index(bank, m)].text[lang as int] == bank[add_index(
            bank,
            m,
        )].text[lang as int],
{
}

/// Adding a message touches no other entry, and the bank never shrinks.
pub proof fn law_other_entries_unchanged(bank: Seq<MessageView>, m: SingleView, lang: nat, j: int)
    requires
        0 <= j < bank.len(),
        single_is_empty(m) || j != add_index(bank, m),
    ensures
        bank.len() <= spec_add_to_bank(bank, m, lang as int).len(),
        spec_add_to_bank(bank, m, lang as int)[j] == bank[j],
{
}

/// Adding a message in one language leaves the texts of every other
/// language as they were.
pub proof fn law_other_languages_unchanged(bank: Seq<MessageView>, m: SingleView, lang: nat, other: nat)
    requires
        other != lang,
        0 <= add_index(bank, m) < bank.len(),
        other < bank[add_index(bank, m)].text.len(),
    ensures
        spec_add_to_bank(bank, m, lang as int)[add_index(bank, m)].text[other as int] == bank[add_index(
            bank,
            m,
        )].text[other as int],
{
}

/// An entry with some non-zero attribute byte keeps its attributes; an
/// entry with none takes those of the message added to it.
pub proof fn law_attributes_set_once(bank: Seq<MessageView>, m: SingleView, lang: nat)
    requires
        !single_is_empty(m),
        0 <= add_index(bank, m) < bank.len(),
    ensures
        !all_zero(bank[add_index(bank, m)].attribs) ==> spec_add_to_bank(bank, m, lang as int)[add_index(
            bank,
            m,
        )].attribs == bank[add_index(bank, m)].attribs,
        all_zero(bank[add_index(bank, m)].attribs) ==> spec_add_to_bank(bank, m, lang as int)[add_index(
            bank,
            m,
        )].attribs == m.attribs,
{
}


/// Adding the same message a second time changes nothing more, where the
/// message has an identifier (a message with identifier 0 is appended
/// again at each addition).
pub proof fn law_adding_twice_is_adding_once(bank: Seq<MessageView>, m: SingleView, lang: nat)
    requires
        m.id > 0,
    ensures
        spec_add_to_bank(spec_add_to_bank(bank, m, lang as int), m, lang as int) == spec_add_to_bank(
            bank,
            m,
            lang as int,
        ),
{
    if !single_is_empty(m) {
        let l = lang as int;
        let idx = m.id - 1;
        let b1 = grow_bank(bank, idx + 1);
        let e1 = spec_merge_entry(b1[idx], m, l);
        let once = b1.update(idx, e1);
        assert(spec_add_to_bank(bank, m, l) == once);
        assert(add_index(once, m) == idx);
        assert(grow_bank(once, idx + 1) =~= once);
        assert(grow_texts(e1.text, l + 1) =~= e1.text);
        let e2 = spec_merge_entry(once[idx], m, l);
        assert(once[idx] == e1);
        assert(e2.text =~= e1.text) by {
            if e1.text[l].len() == 0 {
                assert(e1.text[l] == m.text);
                assert(e1.text.update(l, m.text) =~= e1.text);
            }
        }
        assert(e2 == e1);
        assert(once.update(idx, e2) =~= once);
    }
}

} // verus!
