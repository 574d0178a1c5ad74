use vstd::prelude::*;
use vstd::string::{StrSliceExecFns, StringExecFns};

use crate::bmg_message::{Message, MessageText, MessageView, PartView, Tag, TagView, TextPart};
use crate::game_configs::{
    default_color_hex, game_of, simple_replacement_defined, spec_color_hex, spec_default_color_hex,
    spec_simple_replacement, Game, GameConfig,
};
use crate::text_codec::{decode_bytes, decoded_text, push_char, TextEncoding};
use crate::utils::{get_u16_order, spec_u16};

verus! {

// ---------------------------------------------------------------------------
// Small text helpers
// ---------------------------------------------------------------------------

/// The character of the decimal digit `d`.
pub open spec fn digit_char(d: int) -> char {
    (48 + d) as char
}

/// The decimal representation of `n`, without leading zeros.
pub open spec fn decimal(n: nat) -> Seq<char>
    decreases n,
{
    if n < 10 {
        seq![digit_char(n as int)]
    } else {
        decimal(n / 10) + seq![digit_char((n % 10) as int)]
    }
}

fn digit_char_exec(d: u64) -> (c: char)
    requires
        d < 10,
    ensures
        c == digit_char(d as int),
{
    if d == 0 {
        '0'
    } else if d == 1 {
        '1'
    } else if d == 2 {
        '2'
    } else if d == 3 {
        '3'
    } else if d == 4 {
        '4'
    } else if d == 5 {
        '5'
    } else if d == 6 {
        '6'
    } else if d == 7 {
        '7'
    } else if d == 8 {
        '8'
    } else {
        '9'
    }
}

/// Writes `n` in decimal.
pub fn fmt_decimal(n: u64) -> (r: String)
    ensures
        r@ == decimal(n as nat),
    decreases n,
{
    if n < 10 {
        let mut s = String::new();
        push_char(&mut s, digit_char_exec(n));
        assert(s@ =~= seq![digit_char(n as int)]);
        s
    } else {
        let mut s = fmt_decimal(n / 10);
        push_char(&mut s, digit_char_exec(n % 10));
        s
    }
}

/// The HTML form of a text: every line break becomes `<br>`.
pub open spec fn br_lines(s: Seq<char>) -> Seq<char>
    decreases s.len(),
{
    if s.len() == 0 {
        Seq::empty()
    } else {
        br_lines(s.drop_last()) + if s.last() == '\n' {
            seq!['<', 'b', 'r', '>']
        } else {
            seq![s.last()]
        }
    }
}

/// Replaces every line break of `s` with `<br>`.
pub fn replace_newlines(s: &str) -> (r: String)
    ensures
        r@ == br_lines(s@),
{
    let n = s.unicode_len();
    let mut r = String::new();
    let mut i: usize = 0;
    while i < n
        invariant
            n == s@.len(),
            i <= n,
            r@ == br_lines(s@.take(i as int)),
        decreases n - i,
    {
        let c = s.get_char(i);
        assert(s@.take(i + 1).drop_last() =~= s@.take(i as int));
        if c == '\n' {
            push_char(&mut r, '<');
            push_char(&mut r, 'b');
            push_char(&mut r, 'r');
            push_char(&mut r, '>');
            assert(r@ =~= br_lines(s@.take(i as int)) + seq!['<', 'b', 'r', '>']);
        } else {
            push_char(&mut r, c);
        }
        i = i + 1;
    }
    assert(s@.take(n as int) =~= s@);
    r
}

// ---------------------------------------------------------------------------
// Plain text of a message
// ---------------------------------------------------------------------------

/// The plain text of one part: the text itself, or the short text that
/// stands for a tag.
pub open spec fn part_raw(p: PartView, game: Option<Game>) -> Seq<char> {
    match p {
        PartView::Text(s) => s,
        PartView::Tag(t) => spec_simple_replacement(game, t)@,
    }
}

/// The plain text of a message: the plain texts of its parts, joined.
pub open spec fn raw_text(parts: Seq<PartView>, game: Option<Game>) -> Seq<char>
    decreases parts.len(),
{
    if parts.len() == 0 {
        Seq::empty()
    } else {
        raw_text(parts.drop_last(), game) + part_raw(parts.last(), game)
    }
}

/// Whether the short text of every tag of `parts` can be found.
pub open spec fn raw_defined(parts: Seq<PartView>, game: Option<Game>) -> bool {
    forall|i: int|
        0 <= i < parts.len() ==> (#[trigger] parts[i] matches PartView::Tag(t) ==> simple_replacement_defined(game, t))
}

/// The plain text of a message, with every tag replaced by its short text.
pub fn get_raw_msg(msg: &MessageText, config: Option<&GameConfig>) -> (r: String)
    requires
        raw_defined(crate::bmg_message::text_view(msg@), game_of(config)),
    ensures
        r@ == raw_text(crate::bmg_message::text_view(msg@), game_of(config)),
{
    let ghost parts = crate::bmg_message::text_view(msg@);
    let mut r = String::new();
    let mut i: usize = 0;
    while i < msg.len()
        invariant
            parts == crate::bmg_message::text_view(msg@),
            raw_defined(parts, game_of(config)),
            i <= msg@.len(),
            r@ == raw_text(parts.take(i as int), game_of(config)),
        decreases msg@.len() - i,
    {
        assert(parts.take(i + 1).drop_last() =~= parts.take(i as int));
        assert(parts[i as int] == msg@[i as int]@);
        match &msg[i] {
            TextPart::Text(s) => {
                r.append(s.as_str());
            },
            TextPart::Tag(t) => {
                r.append(t.get_simple_replacement(config));
            },
        }
        i = i + 1;
    }
    assert(parts.take(msg@.len() as int) =~= parts);
    r
}

/// The text that a tag shows in a plain listing: the formatting tags of
/// group 0xFF by name (`[Color]`, `[Size]`, `[Ruby]`, else nothing), every
/// other tag as `[Tag]`.
pub open spec fn spec_tag_display(t: TagView) -> &'static str {
    if t.group == 0xFF {
        if t.number == 0 {
            "[Color]"
        } else if t.number == 1 {
            "[Size]"
        } else if t.number == 2 {
            "[Ruby]"
        } else {
            ""
        }
    } else {
        "[Tag]"
    }
}

impl Tag {
    /// The text that this tag shows in a plain listing.
    pub fn display_text(&self) -> (r: &'static str)
        ensures
            r == spec_tag_display(self@),
    {
        if self.group == 0xFF {
            if self.number == 0 {
                "[Color]"
            } else if self.number == 1 {
                "[Size]"
            } else if self.number == 2 {
                "[Ruby]"
            } else {
                ""
            }
        } else {
            self.get_simple_replacement(None)
        }
    }
}

impl TextPart {
    /// The text that this part shows in a plain listing.
    pub fn display_string(&self) -> (r: String)
        ensures
            r@ == match self@ {
                PartView::Text(s) => s,
                PartView::Tag(t) => spec_tag_display(t)@,
            },
    {
        match self {
            TextPart::Text(s) => s.clone(),
            TextPart::Tag(t) => t.display_text().to_owned(),
        }
    }
}

/// The text a part shows in a plain listing.
pub open spec fn part_display(p: PartView) -> Seq<char> {
    match p {
        PartView::Text(s) => s,
        PartView::Tag(t) => spec_tag_display(t)@,
    }
}

/// The text a message text shows in a plain listing: its parts' texts,
/// joined.
pub open spec fn display_of(parts: Seq<PartView>) -> Seq<char>
    decreases parts.len(),
{
    if parts.len() == 0 {
        Seq::empty()
    } else {
        display_of(parts.drop_last()) + part_display(parts.last())
    }
}

/// The listing text of one message text.
pub fn display_text_of(text: &MessageText) -> (r: String)
    ensures
        r@ == display_of(crate::bmg_message::text_view(text@)),
{
    let ghost parts = crate::bmg_message::text_view(text@);
    let mut r = String::new();
    let mut i: usize = 0;
    while i < text.len()
        invariant
            parts == crate::bmg_message::text_view(text@),
            i <= text@.len(),
            r@ == display_of(parts.take(i as int)),
        decreases text@.len() - i,
    {
        assert(parts.take(i + 1).drop_last() =~= parts.take(i as int));
        assert(parts[i as int] == text@[i as int]@);
        let piece = text[i].display_string();
        r.append(piece.as_str());
        i = i + 1;
    }
    assert(parts.take(text@.len() as int) =~= parts);
    r
}

impl Message {
    /// The listing text of the message in each of its languages.
    pub fn display_texts(&self) -> (r: Vec<String>)
        ensures
            r@.len() == self@.text.len(),
            forall|i: int| 0 <= i < r@.len() ==> (#[trigger] r@[i])@ == display_of(self@.text[i]),
    {
        let mut r: Vec<String> = Vec::new();
        let mut i: usize = 0;
        while i < self.text.len()
            invariant
                i <= self.text@.len(),
                r@.len() == i,
                forall|j: int| 0 <= j < i ==> (#[trigger] r@[j])@ == display_of(self@.text[j]),
            decreases self.text@.len() - i,
        {
            r.push(display_text_of(&self.text[i]));
            i = i + 1;
        }
        r
    }
}

/// The plain text of the message in language `lang`, empty when it has no
/// text in that language.
pub open spec fn spec_get_raw(m: MessageView, lang: int, game: Option<Game>) -> Seq<char> {
    if lang < m.text.len() {
        raw_text(m.text[lang], game)
    } else {
        Seq::empty()
    }
}

/// Whether the plain text of the message in language `lang` can be made.
pub open spec fn get_raw_defined(m: MessageView, lang: int, game: Option<Game>) -> bool {
    lang < m.text.len() ==> raw_defined(m.text[lang], game)
}

// ---------------------------------------------------------------------------
// HTML rendering
// ---------------------------------------------------------------------------

/// What the HTML rendering has produced and the formatting in force: the
/// current color number, font size in percent, and ruby text waiting for
/// the text it goes over (the number of characters it covers and the ruby).
pub struct HtmlState {
    pub out: Seq<char>,
    pub color: int,
    pub size: int,
    pub ruby: Option<(u8, Seq<char>)>,
}

pub open spec fn html_init() -> HtmlState {
    HtmlState { out: Seq::empty(), color: 0, size: 100, ruby: None }
}

/// The HTML color of color number `id`: the game's, or the default colors
/// when no game is given.
pub open spec fn cfg_color(game: Option<Game>, id: int) -> &'static str {
    match game {
        Some(g) => spec_color_hex(g, id),
        None => spec_default_color_hex(id),
    }
}

/// The byte order of sizes in tags: the game's, big-endian when no game is
/// given.
pub open spec fn cfg_big_endian(config: Option<&GameConfig>) -> bool {
    match config {
        Some(c) => c.big_endian,
        None => true,
    }
}

pub open spec fn min_int(a: int, b: int) -> int {
    if a <= b { a } else { b }
}

/// The HTML of one text piece: line breaks as `<br>`; a waiting ruby goes
/// over the first characters.
pub open spec fn html_text(st: HtmlState, t: Seq<char>) -> HtmlState {
    if t.len() == 0 {
        st
    } else {
        let t2 = br_lines(t);
        match st.ruby {
            Some((n, rt)) => {
                let k = min_int(n as int, t2.len() as int);
                HtmlState {
                    out: st.out + "<ruby>"@ + t2.take(k) + "<rp>(</rp><rt>"@ + rt + "</rt><rp>)</rp></ruby>"@ + t2.skip(k),
                    ruby: None,
                    ..st
                }
            },
            None => HtmlState { out: st.out + t2, ..st },
        }
    }
}

/// The effect of one tag on the HTML: color changes close the open color
/// span and open a new one unless the color is 0; size changes do the same
/// with font-size spans unless the size is 100; a ruby tag waits for the
/// next text; other formatting tags do nothing; every other tag shows its
/// short text.
pub open spec fn html_tag(st: HtmlState, t: TagView, game: Option<Game>, be: bool) -> HtmlState {
    if t.group == 0xFF {
        if t.number == 0 {
            let nc = t.payload[0] as int;
            HtmlState {
                out: st.out + (if st.color != 0 { "</span>"@ } else { Seq::empty() }) + (if nc != 0 {
                    "<span style='color:"@ + cfg_color(game, nc)@ + ";'>"@
                } else {
                    Seq::empty()
                }),
                color: nc,
                ..st
            }
        } else if t.number == 1 {
            let ns = spec_u16(t.payload, 0, be);
            HtmlState {
                out: st.out + (if st.size != 100 { "</span>"@ } else { Seq::empty() }) + (if ns != 100 {
                    "<span style='font-size:"@ + decimal(ns as nat) + "%;'>"@
                } else {
                    Seq::empty()
                }),
                size: ns,
                ..st
            }
        } else if t.number == 2 {
            HtmlState {
                ruby: Some((t.payload[0], decoded_text(TextEncoding::ShiftJis, t.payload.subrange(1, t.payload.len() as int)))),
                ..st
            }
        } else {
            st
        }
    } else {
        HtmlState { out: st.out + spec_simple_replacement(game, t)@, ..st }
    }
}

pub open spec fn html_step(st: HtmlState, p: PartView, game: Option<Game>, be: bool) -> HtmlState {
    match p {
        PartView::Text(t) => html_text(st, t),
        PartView::Tag(t) => html_tag(st, t, game, be),
    }
}

/// The HTML rendering state after the parts `parts`.
pub open spec fn html_fold(parts: Seq<PartView>, game: Option<Game>, be: bool) -> HtmlState
    decreases parts.len(),
{
    if parts.len() == 0 {
        html_init()
    } else {
        html_step(html_fold(parts.drop_last(), game, be), parts.last(), game, be)
    }
}

/// Whether rendering a part reads only what it holds: color tags need a
/// color byte below 9, size tags two bytes, ruby tags a first byte, and
/// other tags a findable short text.
pub open spec fn html_part_ok(p: PartView, game: Option<Game>) -> bool {
    match p {
        PartView::Text(_) => true,
        PartView::Tag(t) => if t.group == 0xFF {
            if t.number == 0 {
                t.payload.len() >= 1 && t.payload[0] < 9
            } else if t.number == 1 {
                t.payload.len() >= 2
            } else if t.number == 2 {
                t.payload.len() >= 1 && t.payload.len() <= usize::MAX / 4
            } else {
                true
            }
        } else {
            simple_replacement_defined(game, t)
        },
    }
}

pub open spec fn html_ok(parts: Seq<PartView>, game: Option<Game>) -> bool {
    forall|i: int| 0 <= i < parts.len() ==> html_part_ok(#[trigger] parts[i], game)
}

/// The HTML of a message in language `lang`: with `ignore_tags` its plain
/// text with `<br>` line breaks, else the rendering of its parts (empty
/// when it has no text in that language).
pub open spec fn spec_html(m: MessageView, lang: int, ignore_tags: bool, game: Option<Game>, be: bool) -> Seq<char> {
    if ignore_tags {
        br_lines(spec_get_raw(m, lang, game))
    } else if lang < m.text.len() {
        html_fold(m.text[lang], game, be).out
    } else {
        Seq::empty()
    }
}

/// Whether the HTML of the message in language `lang` can be made.
pub open spec fn html_defined(m: MessageView, lang: int, ignore_tags: bool, game: Option<Game>) -> bool {
    if ignore_tags {
        get_raw_defined(m, lang, game)
    } else {
        lang < m.text.len() ==> html_ok(m.text[lang], game)
    }
}

/// A copy of the first `n` characters of `s` (all of it when shorter) and
/// of the rest.
fn split_chars(s: &str, n: usize) -> (r: (String, String))
    ensures
        r.0@ == s@.take(min_int(n as int, s@.len() as int)),
        r.1@ == s@.skip(min_int(n as int, s@.len() as int)),
{
    let len = s.unicode_len();
    let k = if n <= len { n } else { len };
    let a = s.substring_char(0, k);
    let b = s.substring_char(k, len);
    assert(s@.subrange(0, k as int) =~= s@.take(k as int));
    assert(s@.subrange(k as int, len as int) =~= s@.skip(k as int));
    (a.to_owned(), b.to_owned())
}

impl Message {
    /// The plain text of the message in language `lang_id`, empty when it
    /// has no text in that language.
    pub fn get_raw(&self, lang_id: usize, config: Option<&GameConfig>) -> (r: String)
        requires
            get_raw_defined(self@, lang_id as int, game_of(config)),
        ensures
            r@ == spec_get_raw(self@, lang_id as int, game_of(config)),
    {
        if self.text.len() > lang_id {
            get_raw_msg(&self.text[lang_id], config)
        } else {
            String::new()
        }
    }

    /// The HTML of the message in language `lang_id` (see [`spec_html`]).
    pub fn get_html_formatted(&self, lang_id: usize, ignore_tags: bool, config: Option<&GameConfig>) -> (r: String)
        requires
            html_defined(self@, lang_id as int, ignore_tags, game_of(config)),
        ensures
            r@ == spec_html(self@, lang_id as int, ignore_tags, game_of(config), cfg_big_endian(config)),
    {
        if ignore_tags {
            let raw = self.get_raw(lang_id, config);
            return replace_newlines(raw.as_str());
        }
        if self.text.len() <= lang_id {
            return String::new();
        }
        let parts = &self.text[lang_id];
        let ghost pv = crate::bmg_message::text_view(parts@);
        let ghost game = game_of(config);
        let big_endian = match config {
            Some(c) => c.big_endian,
            None => true,
        };
        let mut r = HtmlRenderer::new();
        let mut i: usize = 0;
        while i < parts.len()
            invariant
                pv == crate::bmg_message::text_view(parts@),
                pv == self@.text[lang_id as int],
                game == game_of(config),
                big_endian == cfg_big_endian(config),
                html_ok(pv, game),
                i <= parts@.len(),
                r@ == html_fold(pv.take(i as int), game, big_endian),
            decreases parts@.len() - i,
        {
            assert(pv.take(i + 1).drop_last() =~= pv.take(i as int));
            assert(pv[i as int] == parts@[i as int]@);
            assert(html_part_ok(pv[i as int], game));
            r.step(&parts[i], config, big_endian);
            i = i + 1;
        }
        assert(pv.take(parts@.len() as int) =~= pv);
        r.res
    }
}

/// The HTML rendering in progress (see [`HtmlState`]).
pub struct HtmlRenderer {
    pub res: String,
    pub color: usize,
    pub size: u16,
    pub ruby: Option<(u8, String)>,
}

impl View for HtmlRenderer {
    type V = HtmlState;

    open spec fn view(&self) -> HtmlState {
        HtmlState {
            out: self.res@,
            color: self.color as int,
            size: self.size as int,
            ruby: match self.ruby {
                Some((n, s)) => Some((n, s@)),
                None => None,
            },
        }
    }
}

impl HtmlRenderer {
    /// Nothing rendered yet, default color and size, no ruby waiting.
    pub fn new() -> (r: HtmlRenderer)
        ensures
            r@ == html_init(),
    {
        HtmlRenderer { res: String::new(), color: 0, size: 100, ruby: None }
    }

    /// Renders a text piece (see [`html_text`]).
    pub fn text(&mut self, text: &String)
        ensures
            final(self)@ == html_text(old(self)@, text@),
    {
        if text.unicode_len() != 0 {
            let text2 = replace_newlines(text.as_str());
            match self.ruby.take() {
                Some((over_count, ruby_text)) => {
                    let (base_text, remaining_text) = split_chars(text2.as_str(), over_count as usize);
                    self.res.append("<ruby>");
                    self.res.append(base_text.as_str());
                    self.res.append("<rp>(</rp><rt>");
                    self.res.append(ruby_text.as_str());
                    self.res.append("</rt><rp>)</rp></ruby>");
                    self.res.append(remaining_text.as_str());
                },
                None => {
                    self.res.append(text2.as_str());
                },
            }
        }
    }

    /// Renders a tag (see [`html_tag`]).
    pub fn tag(&mut self, tag: &Tag, config: Option<&GameConfig>, big_endian: bool)
        requires
            html_part_ok(PartView::Tag(tag@), game_of(config)),
        ensures
            final(self)@ == html_tag(old(self)@, tag@, game_of(config), big_endian),
    {
        let ghost o = self.res@;
        if tag.group == 0xFF {
            if tag.number == 0 {
                let new_color = tag.payload[0] as usize;
                let ghost c0 = self.color;
                if self.color != 0 {
                    self.res.append("</span>");
                }
                if new_color != 0 {
                    let c = match config {
                        Some(conf) => conf.get_color_hex(new_color),
                        None => default_color_hex(new_color),
                    };
                    self.res.append("<span style='color:");
                    self.res.append(c);
                    self.res.append(";'>");
                }
                assert(self.res@ =~= o + (if c0 != 0 { "</span>"@ } else { Seq::empty() }) + (if new_color != 0 {
                    "<span style='color:"@ + cfg_color(game_of(config), new_color as int)@ + ";'>"@
                } else {
                    Seq::empty()
                }));
                self.color = new_color;
            } else if tag.number == 1 {
                let new_size = get_u16_order(tag.payload.as_slice(), 0, big_endian);
                let ghost s0 = self.size;
                if self.size != 100 {
                    self.res.append("</span>");
                }
                if new_size != 100 {
                    let digits = fmt_decimal(new_size as u64);
                    self.res.append("<span style='font-size:");
                    self.res.append(digits.as_str());
                    self.res.append("%;'>");
                }
                assert(self.res@ =~= o + (if s0 != 100 { "</span>"@ } else { Seq::empty() }) + (if new_size != 100 {
                    "<span style='font-size:"@ + decimal(new_size as nat) + "%;'>"@
                } else {
                    Seq::empty()
                }));
                self.size = new_size;
            } else if tag.number == 2 {
                let over_count = tag.payload[0];
                let raw = &tag.payload.as_slice()[1..tag.payload.len()];
                let decoded = decode_bytes(TextEncoding::ShiftJis, raw);
                self.ruby = Some((over_count, decoded));
            }
        } else {
            self.res.append(tag.get_simple_replacement(config));
        }
    }

    /// Renders one part (see [`html_step`]).
    pub fn step(&mut self, part: &TextPart, config: Option<&GameConfig>, big_endian: bool)
        requires
            html_part_ok(part@, game_of(config)),
        ensures
            final(self)@ == html_step(old(self)@, part@, game_of(config), big_endian),
    {
        match part {
            TextPart::Text(t) => self.text(t),
            TextPart::Tag(t) => self.tag(t, config, big_endian),
        }
    }
}


// ---------------------------------------------------------------------------
// Checks of the conditions above
// ---------------------------------------------------------------------------

/// Whether the short text of `tag` can be found.
pub fn replacement_ok(tag: &Tag, config: Option<&GameConfig>) -> (r: bool)
    ensures
        r == simple_replacement_defined(game_of(config), tag@),
{
    match config {
        None => true,
        Some(c) => !(c.game == Game::TwilightPrincess && tag.group == 5 && (tag.number == 3 || tag.number == 0x0C)
            && tag.payload.len() == 0),
    }
}

/// Whether the plain text of `parts` can be made.
pub fn raw_ok(parts: &MessageText, config: Option<&GameConfig>) -> (r: bool)
    ensures
        r == raw_defined(crate::bmg_message::text_view(parts@), game_of(config)),
{
    let ghost pv = crate::bmg_message::text_view(parts@);
    let mut i: usize = 0;
    while i < parts.len()
        invariant
            pv == crate::bmg_message::text_view(parts@),
            i <= parts@.len(),
            forall|j: int| 0 <= j < i ==> (#[trigger] pv[j] matches PartView::Tag(t) ==> simple_replacement_defined(game_of(config), t)),
        decreases parts@.len() - i,
    {
        assert(pv[i as int] == parts@[i as int]@);
        match &parts[i] {
            TextPart::Tag(t) => {
                if !replacement_ok(t, config) {
                    return false;
                }
            },
            TextPart::Text(_) => {},
        }
        i = i + 1;
    }
    true
}

/// Whether rendering `part` as HTML reads only what it holds.
pub fn html_part_check(part: &TextPart, config: Option<&GameConfig>) -> (r: bool)
    ensures
        r == html_part_ok(part@, game_of(config)),
{
    match part {
        TextPart::Text(_) => true,
        TextPart::Tag(t) => {
            if t.group == 0xFF {
                if t.number == 0 {
                    t.payload.len() >= 1 && t.payload[0] < 9
                } else if t.number == 1 {
                    t.payload.len() >= 2
                } else if t.number == 2 {
                    t.payload.len() >= 1 && t.payload.len() <= usize::MAX / 4
                } else {
                    true
                }
            } else {
                replacement_ok(t, config)
            }
        },
    }
}

/// Whether the HTML of the message in language `lang_id` can be made.
pub fn html_check(m: &Message, lang_id: usize, ignore_tags: bool, config: Option<&GameConfig>) -> (r: bool)
    ensures
        r == html_defined(m@, lang_id as int, ignore_tags, game_of(config)),
{
    if lang_id >= m.text.len() {
        return true;
    }
    let parts = &m.text[lang_id];
    assert(m@.text[lang_id as int] == crate::bmg_message::text_view(parts@));
    if ignore_tags {
        return raw_ok(parts, config);
    }
    let ghost pv = crate::bmg_message::text_view(parts@);
    assert(pv == m@.text[lang_id as int]);
    let mut i: usize = 0;
    while i < parts.len()
        invariant
            pv == crate::bmg_message::text_view(parts@),
            lang_id < m@.text.len(),
            pv == m@.text[lang_id as int],
            !ignore_tags,
            i <= parts@.len(),
            forall|j: int| 0 <= j < i ==> html_part_ok(#[trigger] pv[j], game_of(config)),
        decreases parts@.len() - i,
    {
        assert(pv[i as int] == parts@[i as int]@);
        if !html_part_check(&parts[i], config) {
            assert(!html_ok(pv, game_of(config)));
            return false;
        }
        i = i + 1;
    }
    true
}

// ---------------------------------------------------------------------------
// Spreadsheet rendering
// ---------------------------------------------------------------------------

/// A run of text with one format in a spreadsheet cell. A plain run has no
/// format of its own; a styled run has a color (`None` for the cell's
/// default color) and a font size in percent of the default size.
pub struct Segment {
    pub plain: bool,
    pub color: Option<&'static str>,
    pub size_percent: u16,
    pub text: String,
}

pub struct SegmentView {
    pub plain: bool,
    pub color: Option<&'static str>,
    pub size_percent: u16,
    pub text: Seq<char>,
}

impl View for Segment {
    type V = SegmentView;

    open spec fn view(&self) -> SegmentView {
        SegmentView { plain: self.plain, color: self.color, size_percent: self.size_percent, text: self.text@ }
    }
}

pub open spec fn segments_view(s: Seq<Segment>) -> Seq<SegmentView> {
    s.map_values(|x: Segment| x@)
}

/// What the spreadsheet rendering has produced, and the color number and
/// size in force.
pub struct XlsxState {
    pub segs: Seq<SegmentView>,
    pub color: int,
    pub size: int,
}

/// The effect of one part on the spreadsheet rendering. Texts become runs
/// in the current color (looked up in the game's colors) and size; color
/// and size tags change them; ruby and other formatting tags are dropped;
/// other tags become runs of their short text, colored with the default
/// colors. `None` where the rendering would read outside a color table or
/// a tag's payload.
pub open spec fn xlsx_step(st: XlsxState, p: PartView, game: Option<Game>, be: bool) -> Option<XlsxState> {
    match p {
        PartView::Text(t) => {
            if t.len() == 0 {
                Some(st)
            } else if st.color >= 9 {
                None
            } else {
                Some(XlsxState {
                    segs: st.segs.push(SegmentView {
                        plain: false,
                        color: if st.color == 0 { None } else { Some(cfg_color(game, st.color)) },
                        size_percent: st.size as u16,
                        text: t,
                    }),
                    ..st
                })
            }
        },
        PartView::Tag(t) => {
            if t.group == 0xFF {
                if t.number == 0 {
                    if t.payload.len() == 0 { None } else { Some(XlsxState { color: t.payload[0] as int, ..st }) }
                } else if t.number == 1 {
                    if t.payload.len() < 2 { None } else { Some(XlsxState { size: spec_u16(t.payload, 0, be), ..st }) }
                } else {
                    Some(st)
                }
            } else if !simple_replacement_defined(game, t) {
                None
            } else {
                let r = spec_simple_replacement(game, t)@;
                if r.len() == 0 {
                    Some(st)
                } else if st.color != 0 && st.color >= 9 {
                    None
                } else {
                    Some(XlsxState {
                        segs: st.segs.push(SegmentView {
                            plain: false,
                            color: if st.color == 0 { None } else { Some(spec_default_color_hex(st.color)) },
                            size_percent: st.size as u16,
                            text: r,
                        }),
                        ..st
                    })
                }
            }
        },
    }
}

/// The spreadsheet rendering state after the parts `parts`.
pub open spec fn xlsx_fold(parts: Seq<PartView>, game: Option<Game>, be: bool) -> Option<XlsxState>
    decreases parts.len(),
{
    if parts.len() == 0 {
        Some(XlsxState { segs: Seq::empty(), color: 0, size: 100 })
    } else {
        match xlsx_fold(parts.drop_last(), game, be) {
            None => None,
            Some(st) => xlsx_step(st, parts.last(), game, be),
        }
    }
}

/// The runs of the message in language `lang`: with `ignore_tags` one plain
/// run of its plain text, else the rendering of its parts (no runs when it
/// has no text in that language). `None` where rendering would fail.
pub open spec fn spec_xlsx(m: MessageView, lang: int, ignore_tags: bool, game: Option<Game>, be: bool) -> Option<Seq<SegmentView>> {
    if ignore_tags {
        if get_raw_defined(m, lang, game) {
            Some(seq![SegmentView { plain: true, color: None, size_percent: 100, text: spec_get_raw(m, lang, game) }])
        } else {
            None
        }
    } else if lang < m.text.len() {
        match xlsx_fold(m.text[lang], game, be) {
            None => None,
            Some(st) => Some(st.segs),
        }
    } else {
        Some(Seq::empty())
    }
}

impl Message {
    /// The runs of the message in language `lang_id` for a spreadsheet cell,
    /// or `None` where rendering would fail (see [`spec_xlsx`]).
    pub fn try_get_xlsx_formatted(&self, lang_id: usize, ignore_tags: bool, config: Option<&GameConfig>) -> (r: Option<Vec<Segment>>)
        ensures
            match r {
                None => spec_xlsx(self@, lang_id as int, ignore_tags, game_of(config), cfg_big_endian(config)) is None,
                Some(v) => spec_xlsx(self@, lang_id as int, ignore_tags, game_of(config), cfg_big_endian(config))
                    == Some(segments_view(v@)),
            },
    {
        let mut segments: Vec<Segment> = Vec::new();
        if ignore_tags {
            if lang_id < self.text.len() && !raw_ok(&self.text[lang_id], config) {
                return None;
            }
            let text = self.get_raw(lang_id, config);
            segments.push(Segment { plain: true, color: None, size_percent: 100, text });
            assert(segments_view(segments@) =~= seq![segments@[0]@]);
            return Some(segments);
        }
        if lang_id >= self.text.len() {
            assert(segments_view(segments@) =~= Seq::<SegmentView>::empty());
            return Some(segments);
        }
        let parts = &self.text[lang_id];
        let ghost pv = crate::bmg_message::text_view(parts@);
        let ghost game = game_of(config);
        let big_endian = match config {
            Some(c) => c.big_endian,
            None => true,
        };
        let mut current_color: usize = 0;
        let mut current_size: u16 = 100;
        let mut i: usize = 0;
        assert(segments_view(segments@) =~= Seq::<SegmentView>::empty());
        while i < parts.len()
            invariant
                pv == crate::bmg_message::text_view(parts@),
                lang_id < self@.text.len(),
                !ignore_tags,
                pv == self@.text[lang_id as int],
                game == game_of(config),
                big_endian == cfg_big_endian(config),
                i <= parts@.len(),
                xlsx_fold(pv.take(i as int), game, big_endian) == Some(XlsxState {
                    segs: segments_view(segments@),
                    color: current_color as int,
                    size: current_size as int,
                }),
            decreases parts@.len() - i,
        {
            assert(pv.take(i + 1).drop_last() =~= pv.take(i as int));
            assert(pv[i as int] == parts@[i as int]@);
            let ghost before = segments_view(segments@);
            match &parts[i] {
                TextPart::Text(text) => {
                    if text.unicode_len() != 0 {
                        if current_color >= 9 {
                            assert(xlsx_fold(pv.take(i + 1), game, big_endian) is None);
                            proof {
                                lemma_xlsx_fold_none_stays(pv, game, big_endian, i as int + 1);
                            }
                            return None;
                        }
                        let color = if current_color == 0 {
                            None
                        } else {
                            Some(match config {
                                Some(conf) => conf.get_color_hex(current_color),
                                None => default_color_hex(current_color),
                            })
                        };
                        segments.push(Segment { plain: false, color, size_percent: current_size, text: text.clone() });
                        assert(segments_view(segments@) =~= before.push(segments@.last()@));
                    }
                },
                TextPart::Tag(tag) => {
                    if tag.group == 0xFF {
                        if tag.number == 0 {
                            if tag.payload.len() == 0 {
                                proof {
                                    lemma_xlsx_fold_none_stays(pv, game, big_endian, i as int + 1);
                                }
                                return None;
                            }
                            current_color = tag.payload[0] as usize;
                        } else if tag.number == 1 {
                            if tag.payload.len() < 2 {
                                proof {
                                    lemma_xlsx_fold_none_stays(pv, game, big_endian, i as int + 1);
                                }
                                return None;
                            }
                            current_size = get_u16_order(tag.payload.as_slice(), 0, big_endian);
                        }
                    } else {
                        if !replacement_ok(tag, config) {
                            proof {
                                lemma_xlsx_fold_none_stays(pv, game, big_endian, i as int + 1);
                            }
                            return None;
                        }
                        let s = tag.get_simple_replacement(config);
                        if s.unicode_len() != 0 {
                            if current_color != 0 && current_color >= 9 {
                                proof {
                                    lemma_xlsx_fold_none_stays(pv, game, big_endian, i as int + 1);
                                }
                                return None;
                            }
                            let color = if current_color == 0 { None } else { Some(default_color_hex(current_color)) };
                            segments.push(Segment { plain: false, color, size_percent: current_size, text: s.to_owned() });
                            assert(segments_view(segments@) =~= before.push(segments@.last()@));
                        }
                    }
                },
            }
            i = i + 1;
        }
        assert(pv.take(parts@.len() as int) =~= pv);
        Some(segments)
    }

    /// The runs of the message in language `lang_id` for a spreadsheet cell
    /// (see [`spec_xlsx`]).
    pub fn get_xlsx_formatted(&self, lang_id: usize, ignore_tags: bool, config: Option<&GameConfig>) -> (r: Vec<Segment>)
        requires
            spec_xlsx(self@, lang_id as int, ignore_tags, game_of(config), cfg_big_endian(config)) is Some,
        ensures
            spec_xlsx(self@, lang_id as int, ignore_tags, game_of(config), cfg_big_endian(config))
                == Some(segments_view(r@)),
    {
        match self.try_get_xlsx_formatted(lang_id, ignore_tags, config) {
            Some(v) => v,
            None => {
                proof {
                    assert(false);
                }
                Vec::new()
            },
        }
    }

    /// The HTML of the message in language `lang_id`, or `None` where
    /// rendering would read outside a tag's payload or a color table (see
    /// [`html_defined`]).
    pub fn try_get_html_formatted(&self, lang_id: usize, ignore_tags: bool, config: Option<&GameConfig>) -> (r: Option<String>)
        ensures
            r is None <==> !html_defined(self@, lang_id as int, ignore_tags, game_of(config)),
            r matches Some(s) ==> s@ == spec_html(self@, lang_id as int, ignore_tags, game_of(config), cfg_big_endian(config)),
    {
        if html_check(self, lang_id, ignore_tags, config) {
            Some(self.get_html_formatted(lang_id, ignore_tags, config))
        } else {
            None
        }
    }
}

/// Once the spreadsheet rendering fails on a prefix, it fails on every
/// longer prefix.
pub proof fn lemma_xlsx_fold_none_stays(parts: Seq<PartView>, game: Option<Game>, be: bool, k: int)
    requires
        0 <= k <= parts.len(),
        xlsx_fold(parts.take(k), game, be) is None,
    ensures
        xlsx_fold(parts, game, be) is None,
    decreases parts.len() - k,
{
    if k < parts.len() {
        assert(parts.take(k + 1).drop_last() =~= parts.take(k));
        lemma_xlsx_fold_none_stays(parts, game, be, k + 1);
    } else {
        assert(parts.take(k) =~= parts);
    }
}


// ---------------------------------------------------------------------------
// Laws of rendering
// ---------------------------------------------------------------------------

pub proof fn lemma_br_lines_concat(a: Seq<char>, b: Seq<char>)
    ensures
        br_lines(a + b) == br_lines(a) + br_lines(b),
    decreases b.len(),
{
    if b.len() == 0 {
        assert(a + b =~= a);
        assert(br_lines(a) + br_lines(b) =~= br_lines(a));
    } else {
        lemma_br_lines_concat(a, b.drop_last());
        assert((a + b).drop_last() =~= a + b.drop_last());
        assert((a + b).last() == b.last());
        assert(br_lines(a + b) =~= br_lines(a) + br_lines(b));
    }
}

/// Whether every part is text.
pub open spec fn only_text(parts: Seq<PartView>) -> bool {
    forall|i: int| 0 <= i < parts.len() ==> #[trigger] parts[i] is Text
}

proof fn lemma_fold_only_text(parts: Seq<PartView>, game: Option<Game>, be: bool)
    requires
        only_text(parts),
    ensures
        html_fold(parts, game, be) == (HtmlState {
            out: br_lines(raw_text(parts, game)),
            color: 0,
            size: 100,
            ruby: None,
        }),
    decreases parts.len(),
{
    if parts.len() > 0 {
        let init = parts.drop_last();
        assert(only_text(init)) by {
            assert forall|i: int| 0 <= i < init.len() implies #[trigger] init[i] is Text by {
                assert(init[i] == parts[i]);
            }
        }
        lemma_fold_only_text(init, game, be);
        assert(parts[parts.len() - 1] is Text);
        if let PartView::Text(t) = parts.last() {
            lemma_br_lines_concat(raw_text(init, game), t);
            if t.len() == 0 {
                assert(raw_text(init, game) + t =~= raw_text(init, game));
            }
        }
    }
}

/// A message of plain text (no tags) renders to the same HTML whether tags
/// are ignored or not: its text with `<br>` line breaks.
pub proof fn law_plain_text_html_ignores_nothing(m: MessageView, lang: int, game: Option<Game>, be: bool)
    requires
        0 <= lang < m.text.len(),
        only_text(m.text[lang]),
    ensures
        spec_html(m, lang, false, game, be) == spec_html(m, lang, true, game, be),
        spec_html(m, lang, true, game, be) == br_lines(raw_text(m.text[lang], game)),
{
    lemma_fold_only_text(m.text[lang], game, be);
}


/// The plain text of no parts is empty, and the plain text of parts joined
/// is the plain texts joined.
pub proof fn law_raw_text_of_joined_parts(a: Seq<PartView>, b: Seq<PartView>, game: Option<Game>)
    ensures
        raw_text(Seq::empty(), game) == Seq::<char>::empty(),
        raw_text(a + b, game) == raw_text(a, game) + raw_text(b, game),
    decreases b.len(),
{
    if b.len() == 0 {
        assert(a + b =~= a);
        assert(raw_text(a, game) + raw_text(b, game) =~= raw_text(a, game));
    } else {
        law_raw_text_of_joined_parts(a, b.drop_last(), game);
        assert((a + b).drop_last() =~= a + b.drop_last());
        assert((a + b).last() == b.last());
        assert(raw_text(a + b, game) =~= raw_text(a, game) + raw_text(b, game));
    }
}

/// The plain text of a message in a language is the plain text of its
/// parts there, and empty for a language the message has no text in (which
/// can always be made).
pub proof fn law_raw_of_a_language(m: MessageView, lang: nat, game: Option<Game>)
    ensures
        lang < m.text.len() ==> spec_get_raw(m, lang as int, game) == raw_text(m.text[lang as int], game),
        lang >= m.text.len() ==> spec_get_raw(m, lang as int, game) == Seq::<char>::empty() && get_raw_defined(
            m,
            lang as int,
            game,
        ),
{
}

/// With tags ignored, the HTML of a message is its plain text with each line
/// break written `<br>`; empty for a language it has no text in.
pub proof fn law_html_ignoring_tags_is_raw_text(m: MessageView, lang: nat, game: Option<Game>, be: bool)
    ensures
        spec_html(m, lang as int, true, game, be) == br_lines(spec_get_raw(m, lang as int, game)),
        lang >= m.text.len() ==> spec_html(m, lang as int, true, game, be) == Seq::<char>::empty()
            && html_defined(m, lang as int, true, game),
{
}


/// Whether a part is a color tag (group 0xFF, number 0).
pub open spec fn is_color_tag(p: PartView) -> bool {
    p matches PartView::Tag(t) && t.group == 0xFF && t.number == 0
}

/// Whether a part is a size tag (group 0xFF, number 1).
pub open spec fn is_size_tag(p: PartView) -> bool {
    p matches PartView::Tag(t) && t.group == 0xFF && t.number == 1
}

/// The tag of a part (meaningful for tags only).
pub open spec fn tag_of_part(p: PartView) -> TagView {
    match p {
        PartView::Tag(t) => t,
        PartView::Text(_) => TagView { group: 0, number: 0, payload: Seq::empty() },
    }
}

/// The color number set by the last color tag of `parts` (its first payload
/// byte), 0 where there is none.
pub open spec fn last_color(parts: Seq<PartView>) -> int
    decreases parts.len(),
{
    if parts.len() == 0 {
        0
    } else if is_color_tag(parts.last()) {
        tag_of_part(parts.last()).payload[0] as int
    } else {
        last_color(parts.drop_last())
    }
}

/// The font size in percent set by the last size tag of `parts` (its
/// 16-bit payload value in byte order `be`), 100 where there is none.
pub open spec fn last_size(parts: Seq<PartView>, be: bool) -> int
    decreases parts.len(),
{
    if parts.len() == 0 {
        100
    } else if is_size_tag(parts.last()) {
        spec_u16(tag_of_part(parts.last()).payload, 0, be)
    } else {
        last_size(parts.drop_last(), be)
    }
}

/// The HTML rendering keeps in force the color of the last color tag and
/// the size of the last size tag met.
pub proof fn law_html_formatting_in_force(parts: Seq<PartView>, game: Option<Game>, be: bool)
    ensures
        html_fold(parts, game, be).color == last_color(parts),
        html_fold(parts, game, be).size == last_size(parts, be),
    decreases parts.len(),
{
    if parts.len() > 0 {
        law_html_formatting_in_force(parts.drop_last(), game, be);
    }
}

/// A color tag closes the color span in force, whatever the new color, and
/// then opens a span of the new color unless it is 0.
pub proof fn law_html_color_switch(parts: Seq<PartView>, t: TagView, game: Option<Game>, be: bool)
    requires
        t.group == 0xFF,
        t.number == 0,
        t.payload.len() >= 1,
    ensures
        html_fold(parts.push(PartView::Tag(t)), game, be).out == html_fold(parts, game, be).out + (if last_color(
            parts,
        ) != 0 {
            "</span>"@
        } else {
            Seq::empty()
        }) + (if t.payload[0] != 0 {
            "<span style='color:"@ + cfg_color(game, t.payload[0] as int)@ + ";'>"@
        } else {
            Seq::empty()
        }),
        last_color(parts.push(PartView::Tag(t))) == t.payload[0],
{
    law_html_formatting_in_force(parts, game, be);
    assert(parts.push(PartView::Tag(t)).drop_last() =~= parts);
}

/// The spreadsheet rendering keeps in force the color of the last color
/// tag and the size of the last size tag met, as the HTML rendering does.
pub proof fn law_xlsx_formatting_in_force(parts: Seq<PartView>, game: Option<Game>, be: bool)
    ensures
        xlsx_fold(parts, game, be) matches Some(st) ==> st.color == last_color(parts) && st.size == last_size(
            parts,
            be,
        ),
    decreases parts.len(),
{
    if parts.len() > 0 {
        law_xlsx_formatting_in_force(parts.drop_last(), game, be);
    }
}

/// A non-empty text piece after `parts` becomes one more run holding the
/// text, with the size of the last size tag and the color of the last color
/// tag (the game's color for it, none for color 0).
pub proof fn law_xlsx_text_run(parts: Seq<PartView>, text: Seq<char>, game: Option<Game>, be: bool)
    requires
        text.len() > 0,
        xlsx_fold(parts.push(PartView::Text(text)), game, be) is Some,
    ensures
        ({
            let before = xlsx_fold(parts, game, be).unwrap().segs;
            let after = xlsx_fold(parts.push(PartView::Text(text)), game, be).unwrap().segs;
            &&& after.len() == before.len() + 1
            &&& after.drop_last() == before
            &&& after.last().text == text
            &&& after.last().size_percent == last_size(parts, be) as u16
            &&& after.last().color == (if last_color(parts) == 0 {
                None
            } else {
                Some(cfg_color(game, last_color(parts)))
            })
        }),
{
    law_xlsx_formatting_in_force(parts, game, be);
    assert(parts.push(PartView::Text(text)).drop_last() =~= parts);
    let before = xlsx_fold(parts, game, be).unwrap().segs;
    let after = xlsx_fold(parts.push(PartView::Text(text)), game, be).unwrap().segs;
    assert(after.drop_last() =~= before);
}


/// A size tag closes the size span in force (any size other than 100),
/// whatever the new size, and then opens a span of the new size, read from
/// the tag's payload in the game's byte order, unless it is 100.
pub proof fn law_html_size_switch(parts: Seq<PartView>, t: TagView, game: Option<Game>, be: bool)
    requires
        t.group == 0xFF,
        t.number == 1,
        t.payload.len() >= 2,
    ensures
        html_fold(parts.push(PartView::Tag(t)), game, be).out == html_fold(parts, game, be).out + (if last_size(
            parts,
            be,
        ) != 100 {
            "</span>"@
        } else {
            Seq::empty()
        }) + (if spec_u16(t.payload, 0, be) != 100 {
            "<span style='font-size:"@ + decimal(spec_u16(t.payload, 0, be) as nat) + "%;'>"@
        } else {
            Seq::empty()
        }),
        last_size(parts.push(PartView::Tag(t)), be) == spec_u16(t.payload, 0, be),
{
    law_html_formatting_in_force(parts, game, be);
    assert(parts.push(PartView::Tag(t)).drop_last() =~= parts);
}

} // verus!
