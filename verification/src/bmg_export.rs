use vstd::prelude::*;
use vstd::string::{StrSliceExecFns, StringExecFns};

use crate::bmg_message::{msg_is_empty, Message, MessageSingleLang, MessageView, SingleView};
use crate::bmg_text_parser::singles_view;
use crate::bmg_parser::{add_index, bank_view, single_is_empty, spec_add_to_bank, spec_slot_taken, BMGParser, BANK_COUNT};
use crate::formatting::{
    cfg_big_endian, get_raw_defined, html_check, html_defined, raw_ok, spec_get_raw, spec_html,
};
use crate::game_configs::{
    game_of, plain_style, spec_languages, spec_message_style, style_defined, GameConfig, StyleInfo, StyleView,
    Game,
};

verus! {

// ---------------------------------------------------------------------------
// Fixed page text
// ---------------------------------------------------------------------------

pub const HTML_HEAD_0: &'static str = "<!DOCTYPE html>\n<html>\n<head>\n<style>\n    @font-face {\n        font-family: 'fot-rodin-prondb';\n        src: url(\"assets/FOT-RodinProN-DB.otf\");\n        font-weight: normal;\n        font-style: normal;\n    }\n\n    @font-face {\n        font-family: 'reishotai';\n        src: url(\"assets/Reishotai.otf\");\n        font-weight: normal;\n        font-style: normal;\n        size-adjust: 120%;\n    }\n\n    @font-face {\n        font-family: 'rock';\n        src: url(\"assets/RocknRollOne-Regular.ttf\");\n        font-weight: 400;\n        font-style: normal;\n    }\n\n    body rt {\n        color : white;\n        font-family: '";

pub const HTML_HEAD_1: &'static str = "', '\u{ff2d}\u{ff33} \u{660e}\u{671d}', serif;\n    }\n\n    body.nofuri rt {\n        display:none;\n    }\n\n\n    header {\n            text-align:center;\n        }\n\n  table {\n    table-layout: fixed;\n    width: 100%;\n    overflow:auto;\n    font-family: '";

pub const HTML_HEAD_2: &'static str = "';\n    \n}\ntd {\n    border: 1px solid white;\n    border-radius: 10px;\n    padding:1em;\n    }\n\nthead tr {\n    color:black; \n    background-color: initial;\n}\n\ntr {\n    color: white;\n    height: 48px;\n    background: rgb(0 0 0 / 90%);\n}\n\n\nnav {\n    position: sticky;\n    background: white;\n    top: 0;\n}\n\nnav a:link,  nav a:visited {\n  background-color: #0d6efd;\n  color: white;\n  padding: 14px 25px;\n  text-align: center;\n  text-decoration: none;\n  display: inline-block;\n  border-radius: 10px;\n    padding:1em;\n}\n\nnav a:hover, nav a:active {\n  background-color: #0b5ed7;\n}\n</style>\n<link href=\"styles/";

pub const HTML_HEAD_3: &'static str = ".css\" rel=\"stylesheet\" />\n</head>\n<body>\n<header>\n  <img src=\"";

pub const HTML_HEAD_4: &'static str = "\"/>\n</header>\n<nav id=\"options\">\n    <input id=\"hide-furi\" type=\"checkbox\" name=\"HideFuri\" />\n    <label for=\"HideFuri\">Hide Japanese Furigana</label>\n    <a href=\"download/";

pub const HTML_HEAD_5: &'static str = ".csv\">Download CSV</a>\n    <a href=\"download/";

pub const HTML_HEAD_6: &'static str = ".xlsx\">Download Excel</a>\n</nav>\n<table>";

pub const HTML_THEAD_OPEN: &'static str = "<thead>\n    <tr>";

pub const HTML_THEAD_CLOSE: &'static str = "\n    </tr>\n  </thead>\n  <tbody>";

pub const HTML_FOOT: &'static str = "</tbody>\n</table>\n<script> \n\nconst nofuriCheckbox = document.querySelector('#hide-furi');\n    nofuriCheckbox.addEventListener('change', () => {\n    document.querySelector('body').classList.toggle('nofuri', nofuriCheckbox.checked );\n});\n\n</script>\n</body>\n</html>";

pub const ALT_FONT_STYLE: &'static str = "font-family: \"reishotai\", \"\u{ff2d}\u{ff33} \u{660e}\u{671d}\", serif;";

pub const INDEX_HEAD: &'static str = "<html lang=\"en\">\n<head>\n    <meta charset=\"UTF-8\">\n    <meta name=\"viewport\" content=\"width=device-width, initial-scale=1.0\">\n    <title>Zelda Text Dumps</title>\n</head>\n<body style=\"text-align:center\">\n<h1> Zelda comparison tables </h1>\n<div>";

pub const INDEX_FOOT: &'static str = "</div></body>\n</html>";

pub const DEFAULT_LOGO: &'static str = "https://upload.wikimedia.org/wikipedia/commons/thumb/2/2a/Zelda_Logo.svg/1280px-Zelda_Logo.svg.png";

// ---------------------------------------------------------------------------
// String helpers
// ---------------------------------------------------------------------------

/// Whether two strings hold the same characters.
pub fn str_is(s: &str, t: &str) -> (r: bool)
    ensures
        r == (s@ == t@),
{
    let n = s.unicode_len();
    if n != t.unicode_len() {
        return false;
    }
    let mut i: usize = 0;
    while i < n
        invariant
            n == s@.len(),
            n == t@.len(),
            i <= n,
            forall|j: int| 0 <= j < i ==> s@[j] == t@[j],
        decreases n - i,
    {
        if s.get_char(i) != t.get_char(i) {
            return false;
        }
        i = i + 1;
    }
    assert(s@ =~= t@);
    true
}

// ---------------------------------------------------------------------------
// Which messages are exported
// ---------------------------------------------------------------------------

/// The messages of a bank that have some text, in order.
pub open spec fn nonempty_of(bank: Seq<MessageView>) -> Seq<MessageView>
    decreases bank.len(),
{
    if bank.len() == 0 {
        Seq::empty()
    } else {
        nonempty_of(bank.drop_last()) + if msg_is_empty(bank.last()) {
            Seq::<MessageView>::empty()
        } else {
            seq![bank.last()]
        }
    }
}

/// The messages that an export lists: those with some text, bank by bank.
pub open spec fn exported(banks: Seq<Seq<MessageView>>) -> Seq<MessageView>
    decreases banks.len(),
{
    if banks.len() == 0 {
        Seq::empty()
    } else {
        exported(banks.drop_last()) + nonempty_of(banks.last())
    }
}

/// The texts `f` gives for the messages `ms`, joined.
pub open spec fn concat_rows(ms: Seq<MessageView>, f: spec_fn(MessageView) -> Seq<char>) -> Seq<char>
    decreases ms.len(),
{
    if ms.len() == 0 {
        Seq::empty()
    } else {
        concat_rows(ms.drop_last(), f) + f(ms.last())
    }
}

impl BMGParser {
    /// The messages of bank `bank_id` that have some text, in order.
    pub fn non_empty_messages(&self, bank_id: usize) -> (r: Vec<&Message>)
        requires
            self.wf(),
            bank_id < BANK_COUNT,
        ensures
            r@.map_values(|m: &Message| m@) == nonempty_of(self@[bank_id as int]),
    {
        let bank = self.bank(bank_id);
        let ghost bv = bank_view(bank@);
        let mut r: Vec<&Message> = Vec::new();
        let mut i: usize = 0;
        assert(nonempty_of(bv.take(0)) =~= Seq::<MessageView>::empty());
        assert(r@.map_values(|m: &Message| m@) =~= Seq::<MessageView>::empty());
        while i < bank.len()
            invariant
                bv == bank_view(bank@),
                i <= bank@.len(),
                r@.map_values(|m: &Message| m@) == nonempty_of(bv.take(i as int)),
            decreases bank@.len() - i,
        {
            let m = &bank[i];
            let ghost before = r@.map_values(|m: &Message| m@);
            assert(bv.take(i + 1).drop_last() =~= bv.take(i as int));
            assert(bv[i as int] == m@);
            if !m.is_empty() {
                r.push(m);
                assert(r@.map_values(|m: &Message| m@) =~= before.push(m@));
            } else {
                assert(nonempty_of(bv.take(i + 1)) =~= nonempty_of(bv.take(i as int)));
            }
            i = i + 1;
        }
        assert(bv.take(bank@.len() as int) =~= bv);
        r
    }

    /// The messages an export lists (see [`exported`]).
    pub fn exported_messages(&self) -> (r: Vec<&Message>)
        requires
            self.wf(),
        ensures
            r@.map_values(|m: &Message| m@) == exported(self@),
    {
        let mut r: Vec<&Message> = Vec::new();
        let mut b: usize = 0;
        proof {
            self.lemma_bank_count();
        }
        assert(r@.map_values(|m: &Message| m@) =~= exported(self@.take(0)));
        while b < BANK_COUNT
            invariant
                self.wf(),
                b <= BANK_COUNT,
                self@.len() == BANK_COUNT,
                r@.map_values(|m: &Message| m@) == exported(self@.take(b as int)),
            decreases BANK_COUNT - b,
        {
            let part = self.non_empty_messages(b);
            let ghost pv = part@.map_values(|m: &Message| m@);
            let ghost base = exported(self@.take(b as int));
            let mut i: usize = 0;
            assert(base + pv.take(0) =~= base);
            while i < part.len()
                invariant
                    pv == part@.map_values(|m: &Message| m@),
                    i <= part@.len(),
                    r@.map_values(|m: &Message| m@) == base + pv.take(i as int),
                decreases part@.len() - i,
            {
                let ghost before = r@.map_values(|m: &Message| m@);
                r.push(part[i]);
                assert(r@.map_values(|m: &Message| m@) =~= before.push(pv[i as int]));
                assert(base + pv.take(i + 1) =~= (base + pv.take(i as int)).push(pv[i as int]));
                i = i + 1;
            }
            assert(pv.take(part@.len() as int) =~= pv);
            assert(self@.take(b + 1).drop_last() =~= self@.take(b as int));
            assert(self@.take(b + 1).last() == self@[b as int]);
            b = b + 1;
        }
        assert(self@.take(BANK_COUNT as int) =~= self@);
        r
    }
}

// ---------------------------------------------------------------------------
// HTML export
// ---------------------------------------------------------------------------

/// The languages a configuration lists; none without a configuration.
pub open spec fn cfg_languages(config: Option<&GameConfig>) -> Seq<(&'static str, &'static str)> {
    match config {
        Some(c) => spec_languages(c.game),
        None => Seq::empty(),
    }
}

/// The page font of a game, chosen by its identifier.
pub open spec fn spec_font(config: Option<&GameConfig>) -> &'static str {
    match config {
        Some(c) => if c.id@ == "tww"@ { "rock" } else { "fot-rodin-prondb" },
        None => "fot-rodin-prondb",
    }
}

/// The ruby font of a game, chosen by its identifier.
pub open spec fn spec_ruby_font(config: Option<&GameConfig>) -> &'static str {
    match config {
        Some(c) => if c.id@ == "tp"@ { "reishotai" } else { "fot-rodin-prondb" },
        None => "fot-rodin-prondb",
    }
}

pub open spec fn spec_page_id(config: Option<&GameConfig>) -> Seq<char> {
    match config {
        Some(c) => c.id@,
        None => Seq::empty(),
    }
}

pub open spec fn spec_logo(config: Option<&GameConfig>) -> Seq<char> {
    match config {
        Some(c) => c.logo@,
        None => DEFAULT_LOGO@,
    }
}

/// The start of the HTML page: the fixed head with the fonts, the game's
/// style sheet, logo and download links filled in.
pub open spec fn spec_html_begin(config: Option<&GameConfig>) -> Seq<char> {
    HTML_HEAD_0@ + spec_ruby_font(config)@ + HTML_HEAD_1@ + spec_font(config)@ + HTML_HEAD_2@ + spec_page_id(config)
        + HTML_HEAD_3@ + spec_logo(config) + HTML_HEAD_4@ + spec_page_id(config) + HTML_HEAD_5@
        + spec_page_id(config) + HTML_HEAD_6@
}

/// The start of the HTML page (see [`spec_html_begin`]).
pub fn html_begin(config: Option<&GameConfig>) -> (r: String)
    ensures
        r@ == spec_html_begin(config),
{
    let (font, ruby_font, id, logo): (&str, &str, &str, &str) = match config {
        Some(c) => {
            let font = if str_is(c.id, "tww") { "rock" } else { "fot-rodin-prondb" };
            let ruby = if str_is(c.id, "tp") { "reishotai" } else { "fot-rodin-prondb" };
            (font, ruby, c.id, c.logo)
        },
        None => ("fot-rodin-prondb", "fot-rodin-prondb", "", DEFAULT_LOGO),
    };
    proof {
        reveal_strlit("");
    }
    let mut s = String::new();
    s.append(HTML_HEAD_0);
    s.append(ruby_font);
    s.append(HTML_HEAD_1);
    s.append(font);
    s.append(HTML_HEAD_2);
    s.append(id);
    s.append(HTML_HEAD_3);
    s.append(logo);
    s.append(HTML_HEAD_4);
    s.append(id);
    s.append(HTML_HEAD_5);
    s.append(id);
    s.append(HTML_HEAD_6);
    s
}

/// One header cell per language.
pub open spec fn th_cells(langs: Seq<(&'static str, &'static str)>) -> Seq<char>
    decreases langs.len(),
{
    if langs.len() == 0 {
        Seq::empty()
    } else {
        th_cells(langs.drop_last()) + "<th>"@ + langs.last().1@ + "</th>"@
    }
}

/// The table head: one column per language.
pub open spec fn spec_html_headers(config: Option<&GameConfig>) -> Seq<char> {
    HTML_THEAD_OPEN@ + th_cells(cfg_languages(config)) + HTML_THEAD_CLOSE@
}

fn languages_of(config: Option<&GameConfig>) -> (r: Vec<(&'static str, &'static str)>)
    ensures
        r@ == cfg_languages(config),
{
    match config {
        Some(c) => c.get_languages(),
        None => Vec::new(),
    }
}

/// The table head (see [`spec_html_headers`]).
pub fn html_headers(config: Option<&GameConfig>) -> (r: String)
    ensures
        r@ == spec_html_headers(config),
{
    let langs = languages_of(config);
    let mut s = String::new();
    s.append(HTML_THEAD_OPEN);
    let mut i: usize = 0;
    while i < langs.len()
        invariant
            langs@ == cfg_languages(config),
            i <= langs@.len(),
            s@ == HTML_THEAD_OPEN@ + th_cells(langs@.take(i as int)),
        decreases langs@.len() - i,
    {
        assert(langs@.take(i + 1).drop_last() =~= langs@.take(i as int));
        s.append("<th>");
        s.append(langs[i].1);
        s.append("</th>");
        i = i + 1;
    }
    assert(langs@.take(langs@.len() as int) =~= langs@);
    s.append(HTML_THEAD_CLOSE);
    s
}

/// The style of a message row: the game's style for its attributes, plain
/// without a configuration.
pub open spec fn spec_row_style(config: Option<&GameConfig>, attribs: Seq<u8>) -> StyleView {
    match config {
        Some(c) => spec_message_style(c.game, attribs),
        None => plain_style(),
    }
}

pub open spec fn row_style_defined(config: Option<&GameConfig>, attribs: Seq<u8>) -> bool {
    match config {
        Some(c) => style_defined(c.game, attribs),
        None => true,
    }
}

/// The inline style of a row: centering, the alternative font, and the
/// text and background colors that the style sets.
pub open spec fn style_declarations(st: StyleView) -> Seq<char> {
    (if st.centered { "text-align: center; "@ } else { Seq::empty() })
        + (if st.alt_font { ALT_FONT_STYLE@ } else { Seq::empty() })
        + (if st.color.len() != 0 { "color:"@ + st.color + ";"@ } else { Seq::empty() })
        + (if st.bg_color.len() != 0 { "background-color:"@ + st.bg_color + ";"@ } else { Seq::empty() })
}

/// The style attribute of a row, absent when the style declares nothing.
pub open spec fn style_attr(st: StyleView) -> Seq<char> {
    let d = style_declarations(st);
    if d.len() == 0 {
        Seq::empty()
    } else {
        "style='"@ + d + "'"@
    }
}

/// The class attribute of a row, absent when the style has no class.
pub open spec fn class_attr(st: StyleView) -> Seq<char> {
    if st.style_id.len() != 0 {
        " class=\""@ + st.style_id + "\""@
    } else {
        Seq::empty()
    }
}

/// The first `n` cells of a row: the HTML of the message in languages
/// `0..n`.
pub open spec fn td_cells(m: MessageView, n: int, ignore_tags: bool, config: Option<&GameConfig>) -> Seq<char>
    decreases n,
{
    if n <= 0 {
        Seq::empty()
    } else {
        td_cells(m, n - 1, ignore_tags, config) + "<td>"@ + spec_html(
            m,
            n - 1,
            ignore_tags,
            game_of(config),
            cfg_big_endian(config),
        ) + "</td>\n"@
    }
}

/// The table row of a message: its style and class, then one cell per
/// language of the configuration.
pub open spec fn spec_html_row(m: MessageView, ignore_tags: bool, config: Option<&GameConfig>) -> Seq<char> {
    let st = spec_row_style(config, m.attribs);
    "<tr "@ + style_attr(st) + class_attr(st) + ">"@ + td_cells(m, cfg_languages(config).len() as int, ignore_tags, config)
        + "</tr>"@
}

/// Whether the row of a message can be made: its style byte is present and
/// every cell can be rendered.
pub open spec fn html_row_defined(m: MessageView, ignore_tags: bool, config: Option<&GameConfig>) -> bool {
    &&& row_style_defined(config, m.attribs)
    &&& forall|i: int| 0 <= i < cfg_languages(config).len() ==> #[trigger] html_defined(m, i, ignore_tags, game_of(config))
}

fn row_style(config: Option<&GameConfig>, msg: &Message) -> (r: StyleInfo)
    requires
        row_style_defined(config, msg@.attribs),
    ensures
        r@ == spec_row_style(config, msg@.attribs),
{
    match config {
        Some(c) => c.get_message_style(&msg.attribs),
        None => StyleInfo::plain(),
    }
}

fn row_style_check(config: Option<&GameConfig>, msg: &Message) -> (r: bool)
    ensures
        r == row_style_defined(config, msg@.attribs),
{
    match config {
        Some(c) => match c.game {
            Game::WindWaker => msg.attribs.payload.len() > 8,
            Game::TwilightPrincess => msg.attribs.payload.len() > 5,
            Game::PhantomHourglass => true,
        },
        None => true,
    }
}

/// Whether the row of a message can be made (see [`html_row_defined`]).
pub fn html_row_check(msg: &Message, ignore_tags: bool, config: Option<&GameConfig>) -> (r: bool)
    ensures
        r == html_row_defined(msg@, ignore_tags, config),
{
    if !row_style_check(config, msg) {
        return false;
    }
    let n = languages_of(config).len();
    let mut i: usize = 0;
    while i < n
        invariant
            n == cfg_languages(config).len(),
            i <= n,
            row_style_defined(config, msg@.attribs),
            forall|j: int| 0 <= j < i ==> #[trigger] html_defined(msg@, j, ignore_tags, game_of(config)),
        decreases n - i,
    {
        if !html_check(msg, i, ignore_tags, config) {
            return false;
        }
        i = i + 1;
    }
    true
}

fn style_decl_string(style_info: &StyleInfo) -> (r: String)
    ensures
        r@ == style_declarations(style_info@),
{
    let mut decl = String::new();
    if style_info.centered {
        decl.append("text-align: center; ");
    }
    if style_info.alt_font {
        decl.append(ALT_FONT_STYLE);
    }
    if style_info.color.unicode_len() != 0 {
        decl.append("color:");
        decl.append(style_info.color.as_str());
        decl.append(";");
    }
    if style_info.bg_color.unicode_len() != 0 {
        decl.append("background-color:");
        decl.append(style_info.bg_color.as_str());
        decl.append(";");
    }
    assert(decl@ =~= style_declarations(style_info@));
    decl
}

fn row_open(style_info: &StyleInfo) -> (r: String)
    ensures
        r@ == "<tr "@ + style_attr(style_info@) + class_attr(style_info@) + ">"@,
{
    let decl = style_decl_string(style_info);
    let mut s = String::new();
    s.append("<tr ");
    if decl.unicode_len() != 0 {
        s.append("style='");
        s.append(decl.as_str());
        s.append("'");
    }
    if style_info.style_id.unicode_len() != 0 {
        s.append(" class=\"");
        s.append(style_info.style_id.as_str());
        s.append("\"");
    }
    s.append(">");
    assert(s@ =~= "<tr "@ + style_attr(style_info@) + class_attr(style_info@) + ">"@);
    s
}

/// The table row of a message (see [`spec_html_row`]).
pub fn html_row(msg: &Message, ignore_tags: bool, config: Option<&GameConfig>) -> (r: String)
    requires
        html_row_defined(msg@, ignore_tags, config),
    ensures
        r@ == spec_html_row(msg@, ignore_tags, config),
{
    let style_info = row_style(config, msg);
    let mut s = row_open(&style_info);
    let ghost head = s@;
    assert(head =~= "<tr "@ + style_attr(style_info@) + class_attr(style_info@) + ">"@);
    let n = languages_of(config).len();
    let mut i: usize = 0;
    while i < n
        invariant
            n == cfg_languages(config).len(),
            i <= n,
            html_row_defined(msg@, ignore_tags, config),
            s@ == head + td_cells(msg@, i as int, ignore_tags, config),
        decreases n - i,
    {
        assert(html_defined(msg@, i as int, ignore_tags, game_of(config)));
        let cell = msg.get_html_formatted(i, ignore_tags, config);
        s.append("<td>");
        s.append(cell.as_str());
        s.append("</td>\n");
        i = i + 1;
    }
    s.append("</tr>");
    s
}

/// The whole HTML page of the exported messages.
pub open spec fn spec_html_page(banks: Seq<Seq<MessageView>>, ignore_tags: bool, config: &GameConfig) -> Seq<char> {
    spec_html_begin(Some(config)) + spec_html_headers(Some(config)) + concat_rows(
        exported(banks),
        |m: MessageView| spec_html_row(m, ignore_tags, Some(config)),
    ) + HTML_FOOT@
}

/// Whether every row of the page can be made.
pub open spec fn html_page_defined(banks: Seq<Seq<MessageView>>, ignore_tags: bool, config: &GameConfig) -> bool {
    forall|i: int| 0 <= i < exported(banks).len() ==> html_row_defined(#[trigger] exported(banks)[i], ignore_tags, Some(config))
}

/// The CSV header line: each language name followed by `;`.
pub open spec fn csv_header_cells(langs: Seq<(&'static str, &'static str)>) -> Seq<char>
    decreases langs.len(),
{
    if langs.len() == 0 {
        Seq::empty()
    } else {
        csv_header_cells(langs.drop_last()) + langs.last().1@ + ";"@
    }
}

/// The first `n` fields of a CSV line: the plain text of the message in
/// languages `0..n`, each quoted and followed by `;`.
pub open spec fn csv_cells(m: MessageView, n: int, config: Option<&GameConfig>) -> Seq<char>
    decreases n,
{
    if n <= 0 {
        Seq::empty()
    } else {
        csv_cells(m, n - 1, config) + "\""@ + spec_get_raw(m, n - 1, game_of(config)) + "\";"@
    }
}

/// The CSV line of a message.
pub open spec fn spec_csv_row(m: MessageView, config: Option<&GameConfig>) -> Seq<char> {
    csv_cells(m, cfg_languages(config).len() as int, config) + "\n"@
}

pub open spec fn csv_row_defined(m: MessageView, config: Option<&GameConfig>) -> bool {
    forall|i: int| 0 <= i < cfg_languages(config).len() ==> #[trigger] get_raw_defined(m, i, game_of(config))
}

/// The whole CSV file of the exported messages.
pub open spec fn spec_csv_file(banks: Seq<Seq<MessageView>>, config: &GameConfig) -> Seq<char> {
    csv_header_cells(cfg_languages(Some(config))) + "\n"@ + concat_rows(
        exported(banks),
        |m: MessageView| spec_csv_row(m, Some(config)),
    )
}

pub open spec fn csv_file_defined(banks: Seq<Seq<MessageView>>, config: &GameConfig) -> bool {
    forall|i: int| 0 <= i < exported(banks).len() ==> csv_row_defined(#[trigger] exported(banks)[i], Some(config))
}

/// The CSV line of a message (see [`spec_csv_row`]).
pub fn csv_row(msg: &Message, config: Option<&GameConfig>) -> (r: String)
    requires
        csv_row_defined(msg@, config),
    ensures
        r@ == spec_csv_row(msg@, config),
{
    let n = languages_of(config).len();
    let mut s = String::new();
    let mut i: usize = 0;
    while i < n
        invariant
            n == cfg_languages(config).len(),
            i <= n,
            csv_row_defined(msg@, config),
            s@ == csv_cells(msg@, i as int, config),
        decreases n - i,
    {
        assert(get_raw_defined(msg@, i as int, game_of(config)));
        let raw = msg.get_raw(i, config);
        s.append("\"");
        s.append(raw.as_str());
        s.append("\";");
        i = i + 1;
    }
    s.append("\n");
    s
}

/// Whether the CSV line of a message can be made.
pub fn csv_row_check(msg: &Message, config: Option<&GameConfig>) -> (r: bool)
    ensures
        r == csv_row_defined(msg@, config),
{
    let n = languages_of(config).len();
    let mut i: usize = 0;
    while i < n
        invariant
            n == cfg_languages(config).len(),
            i <= n,
            forall|j: int| 0 <= j < i ==> #[trigger] get_raw_defined(msg@, j, game_of(config)),
        decreases n - i,
    {
        if i < msg.text.len() && !raw_ok(&msg.text[i], config) {
            assert(!get_raw_defined(msg@, i as int, game_of(config)));
            return false;
        }
        i = i + 1;
    }
    true
}

/// The CSV header line (see [`csv_header_cells`]).
pub fn csv_header(config: Option<&GameConfig>) -> (r: String)
    ensures
        r@ == csv_header_cells(cfg_languages(config)) + "\n"@,
{
    let langs = languages_of(config);
    let mut s = String::new();
    let mut i: usize = 0;
    while i < langs.len()
        invariant
            langs@ == cfg_languages(config),
            i <= langs@.len(),
            s@ == csv_header_cells(langs@.take(i as int)),
        decreases langs@.len() - i,
    {
        assert(langs@.take(i + 1).drop_last() =~= langs@.take(i as int));
        s.append(langs[i].1);
        s.append(";");
        i = i + 1;
    }
    assert(langs@.take(langs@.len() as int) =~= langs@);
    s.append("\n");
    s
}

impl BMGParser {
    /// The HTML page of all exported messages, or `None` where a row cannot
    /// be made (see [`html_page_defined`]).
    pub fn export_html_text(&self, ignore_tags: bool, config: &GameConfig) -> (r: Option<String>)
        requires
            self.wf(),
        ensures
            r is None <==> !html_page_defined(self@, ignore_tags, config),
            r matches Some(s) ==> s@ == spec_html_page(self@, ignore_tags, config),
    {
        let msgs = self.exported_messages();
        let ghost ms = msgs@.map_values(|m: &Message| m@);
        let ghost f = |m: MessageView| spec_html_row(m, ignore_tags, Some(config));
        let mut s = html_begin(Some(config));
        let headers = html_headers(Some(config));
        s.append(headers.as_str());
        let ghost head = s@;
        let mut i: usize = 0;
        while i < msgs.len()
            invariant
                ms == msgs@.map_values(|m: &Message| m@),
                ms == exported(self@),
                f == (|m: MessageView| spec_html_row(m, ignore_tags, Some(config))),
                i <= msgs@.len(),
                forall|j: int| 0 <= j < i ==> html_row_defined(#[trigger] ms[j], ignore_tags, Some(config)),
                s@ == head + concat_rows(ms.take(i as int), f),
            decreases msgs@.len() - i,
        {
            let m = msgs[i];
            assert(ms[i as int] == m@);
            if !html_row_check(m, ignore_tags, Some(config)) {
                return None;
            }
            let row = html_row(m, ignore_tags, Some(config));
            assert(ms.take(i + 1).drop_last() =~= ms.take(i as int));
            s.append(row.as_str());
            i = i + 1;
        }
        assert(ms.take(msgs@.len() as int) =~= ms);
        s.append(HTML_FOOT);
        Some(s)
    }

    /// The CSV file of all exported messages, or `None` where a line cannot
    /// be made (see [`csv_file_defined`]).
    pub fn export_csv_text(&self, config: &GameConfig) -> (r: Option<String>)
        requires
            self.wf(),
        ensures
            r is None <==> !csv_file_defined(self@, config),
            r matches Some(s) ==> s@ == spec_csv_file(self@, config),
    {
        let msgs = self.exported_messages();
        let ghost ms = msgs@.map_values(|m: &Message| m@);
        let ghost f = |m: MessageView| spec_csv_row(m, Some(config));
        let mut s = csv_header(Some(config));
        let ghost head = s@;
        let mut i: usize = 0;
        while i < msgs.len()
            invariant
                ms == msgs@.map_values(|m: &Message| m@),
                ms == exported(self@),
                f == (|m: MessageView| spec_csv_row(m, Some(config))),
                i <= msgs@.len(),
                forall|j: int| 0 <= j < i ==> csv_row_defined(#[trigger] ms[j], Some(config)),
                s@ == head + concat_rows(ms.take(i as int), f),
            decreases msgs@.len() - i,
        {
            let m = msgs[i];
            assert(ms[i as int] == m@);
            if !csv_row_check(m, Some(config)) {
                return None;
            }
            let row = csv_row(m, Some(config));
            assert(ms.take(i + 1).drop_last() =~= ms.take(i as int));
            s.append(row.as_str());
            i = i + 1;
        }
        assert(ms.take(msgs@.len() as int) =~= ms);
        Some(s)
    }
}


// ---------------------------------------------------------------------------
// Spreadsheet cells
// ---------------------------------------------------------------------------

/// The style of a message's spreadsheet cells, or `None` where the game's
/// style byte is missing from its attributes.
pub fn try_row_style(msg: &Message, config: Option<&GameConfig>) -> (r: Option<StyleInfo>)
    ensures
        r is None <==> !row_style_defined(config, msg@.attribs),
        r matches Some(st) ==> st@ == spec_row_style(config, msg@.attribs),
{
    if row_style_check(config, msg) {
        Some(row_style(config, msg))
    } else {
        None
    }
}

// ---------------------------------------------------------------------------
// Index page
// ---------------------------------------------------------------------------

/// The links of the index page: for each game, its logo linking to its page.
pub open spec fn index_links(configs: Seq<GameConfig>) -> Seq<char>
    decreases configs.len(),
{
    if configs.len() == 0 {
        Seq::empty()
    } else {
        index_links(configs.drop_last()) + "<a href=\""@ + configs.last().id@ + ".html\"><img src=\""@
            + configs.last().logo@ + "\"/></a>"@
    }
}

/// The index page that links to every game's page.
pub fn index_html(configs: &Vec<GameConfig>) -> (r: String)
    ensures
        r@ == INDEX_HEAD@ + index_links(configs@) + INDEX_FOOT@,
{
    let mut s = String::new();
    s.append(INDEX_HEAD);
    let mut i: usize = 0;
    while i < configs.len()
        invariant
            i <= configs@.len(),
            s@ == INDEX_HEAD@ + index_links(configs@.take(i as int)),
        decreases configs@.len() - i,
    {
        assert(configs@.take(i + 1).drop_last() =~= configs@.take(i as int));
        let c = configs[i];
        s.append("<a href=\"");
        s.append(c.id);
        s.append(".html\"><img src=\"");
        s.append(c.logo);
        s.append("\"/></a>");
        i = i + 1;
    }
    assert(configs@.take(configs@.len() as int) =~= configs@);
    s.append(INDEX_FOOT);
    s
}

// ---------------------------------------------------------------------------
// Gathering the files of a game
// ---------------------------------------------------------------------------

/// A message file to read: the folder of its language, its name, the
/// language number and the bank number.
pub struct ImportJob {
    pub folder: String,
    pub basename: &'static str,
    pub lang_idx: usize,
    pub bank_id: usize,
}

/// The folder of a language's dumps: `./res/<game id>/<language name>`.
pub open spec fn spec_folder(config: &GameConfig, lang_name: &'static str) -> Seq<char> {
    "./res/"@ + config.id@ + "/"@ + lang_name@
}

/// Every file of a game to read: for each language in order, each of the
/// game's files in bank order.
pub fn import_jobs(config: &GameConfig) -> (r: Vec<ImportJob>)
    ensures
        r@.len() == spec_languages(config.game).len() * crate::game_configs::spec_filenames(config.game).len(),
        forall|l: int, b: int|
            0 <= l < spec_languages(config.game).len() && 0 <= b < crate::game_configs::spec_filenames(config.game).len()
                ==> {
                let j = #[trigger] r@[l * crate::game_configs::spec_filenames(config.game).len() + b];
                &&& j.folder@ == spec_folder(config, spec_languages(config.game)[l].1)
                &&& j.basename == crate::game_configs::spec_filenames(config.game)[b]
                &&& j.lang_idx == l
                &&& j.bank_id == b
            },
{
    let langs = config.get_languages();
    let files = config.get_filenames();
    let nf = files.len();
    let mut r: Vec<ImportJob> = Vec::new();
    let mut l: usize = 0;
    while l < langs.len()
        invariant
            langs@ == spec_languages(config.game),
            files@ == crate::game_configs::spec_filenames(config.game),
            nf == files@.len(),
            nf <= 10,
            langs@.len() <= 4,
            l <= langs@.len(),
            r@.len() == l * nf,
            forall|l2: int, b: int|
                0 <= l2 < l && 0 <= b < nf ==> {
                    let j = #[trigger] r@[l2 * nf + b];
                    &&& j.folder@ == spec_folder(config, langs@[l2].1)
                    &&& j.basename == files@[b]
                    &&& j.lang_idx == l2
                    &&& j.bank_id == b
                },
        decreases langs@.len() - l,
    {
        let mut b: usize = 0;
        while b < nf
            invariant
                langs@ == spec_languages(config.game),
                files@ == crate::game_configs::spec_filenames(config.game),
                nf == files@.len(),
                nf <= 10,
                langs@.len() <= 4,
                l < langs@.len(),
                b <= nf,
                r@.len() == l * nf + b,
                forall|l2: int, b2: int|
                    0 <= l2 < l && 0 <= b2 < nf ==> {
                        let j = #[trigger] r@[l2 * nf + b2];
                        &&& j.folder@ == spec_folder(config, langs@[l2].1)
                        &&& j.basename == files@[b2]
                        &&& j.lang_idx == l2
                        &&& j.bank_id == b2
                    },
                forall|b2: int|
                    0 <= b2 < b ==> {
                        let j = #[trigger] r@[l * nf + b2];
                        &&& j.folder@ == spec_folder(config, langs@[l as int].1)
                        &&& j.basename == files@[b2]
                        &&& j.lang_idx == l
                        &&& j.bank_id == b2
                    },
            decreases nf - b,
        {
            let mut folder = String::new();
            folder.append("./res/");
            folder.append(config.id);
            folder.append("/");
            folder.append(langs[l].1);
            let ghost before = r@;
            r.push(ImportJob { folder, basename: files[b], lang_idx: l, bank_id: b });
            proof {
                assert forall|l2: int, b2: int| 0 <= l2 < l && 0 <= b2 < nf implies #[trigger] r@[l2 * nf + b2]
                    == before[l2 * nf + b2] by {
                    assert(l2 * nf + b2 < l * nf) by (nonlinear_arith)
                        requires
                            0 <= l2 < l,
                            0 <= b2 < nf,
                    ;
                }
            }
            b = b + 1;
        }
        assert(r@.len() == (l + 1) * nf) by (nonlinear_arith)
            requires
                r@.len() == l * nf + nf,
        ;
        l = l + 1;
    }
    r
}

/// The kinds of message file that can be read.
#[derive(Clone, Copy, Debug, PartialEq, Eq, Structural)]
pub enum FileKind {
    /// A text dump, read line by line.
    Text,
    /// A binary BMG file.
    Binary,
}

/// The kind of a message file by its extension: `txt` for text dumps, `bmg`
/// for binary files; any other extension names no kind.
pub fn file_kind(ext: Option<&str>) -> (r: Option<FileKind>)
    ensures
        r == match ext {
            Some(e) => if e@ == "txt"@ {
                Some(FileKind::Text)
            } else if e@ == "bmg"@ {
                Some(FileKind::Binary)
            } else {
                None
            },
            None => None,
        },
{
    match ext {
        Some(e) => if str_is(e, "txt") {
            Some(FileKind::Text)
        } else if str_is(e, "bmg") {
            Some(FileKind::Binary)
        } else {
            None
        },
        None => None,
    }
}

/// Adding the messages `msgs` one after the other to a bank.
pub open spec fn spec_add_all(bank: Seq<MessageView>, msgs: Seq<SingleView>, lang: int) -> Seq<MessageView>
    decreases msgs.len(),
{
    if msgs.len() == 0 {
        bank
    } else {
        spec_add_to_bank(spec_add_all(bank, msgs.drop_last(), lang), msgs.last(), lang)
    }
}

/// The places where adding the messages `msgs` one after the other finds a
/// text already there: the position of the message in `msgs` and the index
/// of its entry.
pub open spec fn spec_conflicts(bank: Seq<MessageView>, msgs: Seq<SingleView>, lang: int) -> Seq<(int, int)>
    decreases msgs.len(),
{
    if msgs.len() == 0 {
        Seq::empty()
    } else {
        let before = spec_add_all(bank, msgs.drop_last(), lang);
        spec_conflicts(bank, msgs.drop_last(), lang) + if spec_slot_taken(before, msgs.last(), lang) {
            seq![((msgs.len() - 1) as int, add_index(before, msgs.last()))]
        } else {
            Seq::empty()
        }
    }
}

/// Whether message `k` of `msgs` carries something while, after adding the
/// messages before it, the bank holds `usize::MAX` entries, so that it
/// could not grow further.
pub open spec fn bank_full_at(bank: Seq<MessageView>, msgs: Seq<SingleView>, lang: int, k: int) -> bool {
    &&& !single_is_empty(msgs[k])
    &&& spec_add_all(bank, msgs.take(k), lang).len() >= usize::MAX
}

/// Whether none of the messages carries anything.
pub open spec fn all_empty(msgs: Seq<SingleView>) -> bool {
    forall|i: int| 0 <= i < msgs.len() ==> single_is_empty(#[trigger] msgs[i])
}

/// Adding messages that carry nothing leaves the bank as it was, and finds
/// no text in place.
pub proof fn lemma_add_all_empty(bank: Seq<MessageView>, msgs: Seq<SingleView>, lang: int)
    requires
        all_empty(msgs),
    ensures
        spec_add_all(bank, msgs, lang) == bank,
        spec_conflicts(bank, msgs, lang) == Seq::<(int, int)>::empty(),
    decreases msgs.len(),
{
    if msgs.len() > 0 {
        assert(all_empty(msgs.drop_last())) by {
            assert forall|i: int| 0 <= i < msgs.len() - 1 implies single_is_empty(#[trigger] msgs.drop_last()[i]) by {
                assert(msgs.drop_last()[i] == msgs[i]);
            }
        }
        assert(single_is_empty(msgs[msgs.len() - 1]));
        lemma_add_all_empty(bank, msgs.drop_last(), lang);
        assert(spec_conflicts(bank, msgs.drop_last(), lang) + Seq::<(int, int)>::empty() =~= Seq::<(int, int)>::empty());
    }
}

pub open spec fn pairs_view(v: Seq<(usize, usize)>) -> Seq<(int, int)> {
    v.map_values(|p: (usize, usize)| (p.0 as int, p.1 as int))
}

impl BMGParser {
    /// Adds the messages of one file, in order, in language `lang_idx` to
    /// bank `bank_id`, and returns where a text was already in place (see
    /// [`spec_conflicts`]). Returns `None` exactly when, before one of the
    /// messages, the bank already holds `usize::MAX` entries; the messages
    /// before the first such one are then added.
    pub fn add_messages(&mut self, msgs: &Vec<MessageSingleLang>, lang_idx: usize, bank_id: usize) -> (r: Option<
        Vec<(usize, usize)>,
    >)
        requires
            old(self).wf(),
            !all_empty(singles_view(msgs@)) ==> bank_id < BANK_COUNT && lang_idx < usize::MAX,
        ensures
            final(self).wf(),
            bank_id >= BANK_COUNT ==> final(self)@ == old(self)@,
            r matches Some(c) ==> (bank_id < BANK_COUNT ==> final(self)@ == old(self)@.update(
                bank_id as int,
                spec_add_all(old(self)@[bank_id as int], msgs@.map_values(|m: MessageSingleLang| m@), lang_idx as int),
            )) && pairs_view(c@) == spec_conflicts(
                old(self)@[bank_id as int],
                msgs@.map_values(|m: MessageSingleLang| m@),
                lang_idx as int,
            ),
            r is None <==> exists|k: int|
                0 <= k < msgs@.len() && #[trigger] bank_full_at(
                    old(self)@[bank_id as int],
                    singles_view(msgs@),
                    lang_idx as int,
                    k,
                ),
            r is None ==> exists|k: int|
                0 <= k < msgs@.len() && #[trigger] bank_full_at(
                    old(self)@[bank_id as int],
                    singles_view(msgs@),
                    lang_idx as int,
                    k,
                ) && (forall|j: int|
                    0 <= j < k ==> !bank_full_at(
                        old(self)@[bank_id as int],
                        singles_view(msgs@),
                        lang_idx as int,
                        j,
                    )) && final(self)@ == old(self)@.update(
                    bank_id as int,
                    spec_add_all(
                        old(self)@[bank_id as int],
                        singles_view(msgs@).take(k),
                        lang_idx as int,
                    ),
                ),
    {
        let ghost ms = msgs@.map_values(|m: MessageSingleLang| m@);
        let ghost start = self@;
        proof {
            self.lemma_bank_count();
        }
        if bank_id >= BANK_COUNT || lang_idx == usize::MAX {
            proof {
                lemma_add_all_empty(start[bank_id as int], ms, lang_idx as int);
                assert forall|k: int| 0 <= k < msgs@.len() implies !#[trigger] bank_full_at(
                    start[bank_id as int],
                    ms,
                    lang_idx as int,
                    k,
                ) by {
                    assert(single_is_empty(ms[k]));
                }
                if bank_id < BANK_COUNT {
                    assert(start.update(bank_id as int, start[bank_id as int]) =~= start);
                }
            }
            let none: Vec<(usize, usize)> = Vec::new();
            assert(pairs_view(none@) =~= Seq::<(int, int)>::empty());
            return Some(none);
        }
        let mut conflicts: Vec<(usize, usize)> = Vec::new();
        let mut i: usize = 0;
        assert(ms.take(0) =~= Seq::<SingleView>::empty());
        assert(pairs_view(conflicts@) =~= Seq::<(int, int)>::empty());
        while i < msgs.len()
            invariant
                self.wf(),
                bank_id < BANK_COUNT,
                lang_idx < usize::MAX,
                ms == msgs@.map_values(|m: MessageSingleLang| m@),
                start.len() == BANK_COUNT,
                i <= msgs@.len(),
                self@ == start.update(bank_id as int, spec_add_all(start[bank_id as int], ms.take(i as int), lang_idx as int)),
                pairs_view(conflicts@) == spec_conflicts(start[bank_id as int], ms.take(i as int), lang_idx as int),
                start == old(self)@,
                ms == singles_view(msgs@),
                forall|j: int| 0 <= j < i ==> !#[trigger] bank_full_at(start[bank_id as int], ms, lang_idx as int, j),
            decreases msgs@.len() - i,
        {
            assert(ms[i as int] == msgs@[i as int]@);
            let full = !msgs[i].is_empty() && self.bank(bank_id).len() == usize::MAX;
            assert(self@[bank_id as int] == spec_add_all(start[bank_id as int], ms.take(i as int), lang_idx as int));
            if full {
                assert(bank_full_at(start[bank_id as int], ms, lang_idx as int, i as int));
                return None;
            }
            assert(!bank_full_at(start[bank_id as int], ms, lang_idx as int, i as int));
            assert(ms.take(i + 1).drop_last() =~= ms.take(i as int));
            assert(ms[i as int] == msgs@[i as int]@);
            let ghost before = pairs_view(conflicts@);
            match self.add_message(&msgs[i], lang_idx, bank_id) {
                Some(idx) => {
                    conflicts.push((i, idx));
                    assert(pairs_view(conflicts@) =~= before.push((i as int, idx as int)));
                },
                None => {
                    assert(before + Seq::<(int, int)>::empty() =~= before);
                },
            }
            i = i + 1;
        }
        assert(ms.take(msgs@.len() as int) =~= ms);
        Some(conflicts)
    }
}


/// Adding the messages of a file at once is adding them one at a time, in
/// order: nothing added leaves the bank as it was, and one more message is
/// one more single addition.
pub proof fn law_batch_is_one_by_one(bank: Seq<MessageView>, msgs: Seq<SingleView>, m: SingleView, lang: nat)
    ensures
        spec_add_all(bank, Seq::empty(), lang as int) == bank,
        spec_add_all(bank, msgs.push(m), lang as int) == spec_add_to_bank(
            spec_add_all(bank, msgs, lang as int),
            m,
            lang as int,
        ),
{
    assert(msgs.push(m).drop_last() =~= msgs);
}


/// Whether a message has a non-empty text in some language.
pub open spec fn has_some_text(m: MessageView) -> bool {
    exists|i: int| 0 <= i < m.text.len() && #[trigger] m.text[i].len() > 0
}

/// The messages an export lists from a bank are exactly those with a
/// non-empty text in some language, in bank order: the bank filtered by
/// that condition.
pub proof fn law_export_lists_messages_with_text(bank: Seq<MessageView>)
    ensures
        nonempty_of(bank) == bank.filter(|m: MessageView| has_some_text(m)),
        forall|i: int| 0 <= i < nonempty_of(bank).len() ==> has_some_text(#[trigger] nonempty_of(bank)[i]),
    decreases bank.len(),
{
    reveal(Seq::filter);
    if bank.len() > 0 {
        law_export_lists_messages_with_text(bank.drop_last());
        let m = bank.last();
        if msg_is_empty(m) {
            assert(!has_some_text(m));
        } else {
            let i = choose|i: int| 0 <= i < m.text.len() && m.text[i].len() != 0;
            assert(m.text[i].len() > 0);
            assert(has_some_text(m));
        }
        let f = |m: MessageView| has_some_text(m);
        assert(nonempty_of(bank) =~= bank.filter(f));
    }
    let f = |m: MessageView| has_some_text(m);
    bank.filter_lemma(f);
}


/// The messages an export lists are, bank after bank, the messages of each
/// bank that have a non-empty text in some language.
pub proof fn law_export_lists_banks_in_order(banks: Seq<Seq<MessageView>>)
    ensures
        exported(banks) == banks.map_values(|b: Seq<MessageView>| b.filter(|m: MessageView| has_some_text(m))).flatten(),
    decreases banks.len(),
{
    let g = |b: Seq<MessageView>| b.filter(|m: MessageView| has_some_text(m));
    let fb = banks.map_values(g);
    fb.lemma_flatten_and_flatten_alt_are_equivalent();
    if banks.len() > 0 {
        law_export_lists_banks_in_order(banks.drop_last());
        let fd = banks.drop_last().map_values(g);
        fd.lemma_flatten_and_flatten_alt_are_equivalent();
        assert(fb.drop_last() =~= fd);
        law_export_lists_messages_with_text(banks.last());
        assert(fb.last() == g(banks.last()));
    }
}

} // verus!
