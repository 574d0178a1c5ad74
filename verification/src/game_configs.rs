use vstd::prelude::*;

use crate::bmg_message::{MessageAttributes, Tag, TagView};

verus! {

/// How a message row is styled in an export.
pub struct StyleInfo {
    pub centered: bool,
    pub color: String,
    pub bg_color: String,
    pub alt_font: bool,
    pub style_id: String,
}

/// The value of a [`StyleInfo`].
pub struct StyleView {
    pub centered: bool,
    pub color: Seq<char>,
    pub bg_color: Seq<char>,
    pub alt_font: bool,
    pub style_id: Seq<char>,
}

impl View for StyleInfo {
    type V = StyleView;

    open spec fn view(&self) -> StyleView {
        StyleView {
            centered: self.centered,
            color: self.color@,
            bg_color: self.bg_color@,
            alt_font: self.alt_font,
            style_id: self.style_id@,
        }
    }
}

/// The plain style: not centered, no colors, the usual font, no class.
pub open spec fn plain_style() -> StyleView {
    StyleView {
        centered: false,
        color: Seq::empty(),
        bg_color: Seq::empty(),
        alt_font: false,
        style_id: Seq::empty(),
    }
}

impl StyleInfo {
    /// The plain style.
    pub fn plain() -> (r: StyleInfo)
        ensures
            r@ == plain_style(),
    {
        StyleInfo {
            centered: false,
            color: String::new(),
            bg_color: String::new(),
            alt_font: false,
            style_id: String::new(),
        }
    }
}

impl Default for StyleInfo {
    fn default() -> (r: StyleInfo)
        ensures
            r@ == plain_style(),
    {
        StyleInfo::plain()
    }
}

/// The games whose message files this library knows.
#[derive(Clone, Copy, Debug, PartialEq, Eq, Structural)]
pub enum Game {
    WindWaker,
    TwilightPrincess,
    PhantomHourglass,
}

/// What the library knows of one game: its names, the byte order of its
/// files, and (through `game`) its tag texts, colors, message styles,
/// languages and file names.
#[derive(Clone, Copy)]
pub struct GameConfig {
    pub name: &'static str,
    pub id: &'static str,
    pub logo: &'static str,
    pub big_endian: bool,
    pub game: Game,
}

/// The Wind Waker.
pub fn tww() -> (r: GameConfig)
    ensures
        r.game == Game::WindWaker,
        r.big_endian,
        r.name == "The Wind Waker",
        r.id == "tww",
        r.logo == "https://www.nintendo.com/jp/character/zelda/history/img/branch-d/01/pc/logo.png",
{
    GameConfig {
        name: "The Wind Waker",
        id: "tww",
        logo: "https://www.nintendo.com/jp/character/zelda/history/img/branch-d/01/pc/logo.png",
        big_endian: true,
        game: Game::WindWaker,
    }
}

/// Twilight Princess.
pub fn tp() -> (r: GameConfig)
    ensures
        r.game == Game::TwilightPrincess,
        r.big_endian,
        r.name == "Twilight Princess",
        r.id == "tp",
        r.logo == "https://www.nintendo.com/jp/character/zelda/history/img/branch-c/02/pc/logo.png",
{
    GameConfig {
        name: "Twilight Princess",
        id: "tp",
        logo: "https://www.nintendo.com/jp/character/zelda/history/img/branch-c/02/pc/logo.png",
        big_endian: true,
        game: Game::TwilightPrincess,
    }
}

/// Phantom Hourglass.
pub fn ph() -> (r: GameConfig)
    ensures
        r.game == Game::PhantomHourglass,
        !r.big_endian,
        r.name == "Phantom Hourglass",
        r.id == "ph",
        r.logo == "https://www.nintendo.com/jp/character/zelda/history/img/branch-d/02/pc/logo.png",
{
    GameConfig {
        name: "Phantom Hourglass",
        id: "ph",
        logo: "https://www.nintendo.com/jp/character/zelda/history/img/branch-d/02/pc/logo.png",
        big_endian: false,
        game: Game::PhantomHourglass,
    }
}

/// Every known game, in the order of the index page.
pub fn all_configs() -> (r: Vec<GameConfig>)
    ensures
        r@.len() == 3,
        r@[0].game == Game::TwilightPrincess,
        r@[1].game == Game::WindWaker,
        r@[2].game == Game::PhantomHourglass,
        r@[0] == tp_spec(),
        r@[1] == tww_spec(),
        r@[2] == ph_spec(),
{
    let mut r: Vec<GameConfig> = Vec::new();
    r.push(tp());
    r.push(tww());
    r.push(ph());
    r
}

pub open spec fn tww_spec() -> GameConfig {
    GameConfig {
        name: "The Wind Waker",
        id: "tww",
        logo: "https://www.nintendo.com/jp/character/zelda/history/img/branch-d/01/pc/logo.png",
        big_endian: true,
        game: Game::WindWaker,
    }
}

pub open spec fn tp_spec() -> GameConfig {
    GameConfig {
        name: "Twilight Princess",
        id: "tp",
        logo: "https://www.nintendo.com/jp/character/zelda/history/img/branch-c/02/pc/logo.png",
        big_endian: true,
        game: Game::TwilightPrincess,
    }
}

pub open spec fn ph_spec() -> GameConfig {
    GameConfig {
        name: "Phantom Hourglass",
        id: "ph",
        logo: "https://www.nintendo.com/jp/character/zelda/history/img/branch-d/02/pc/logo.png",
        big_endian: false,
        game: Game::PhantomHourglass,
    }
}

// ---------------------------------------------------------------------------
// Tag texts
// ---------------------------------------------------------------------------

/// The Twilight Princess tags whose text depends on their first payload
/// byte.
pub open spec fn tp_tag_reads_payload(group: u8, number: u16) -> bool {
    group == 5 && (number == 3 || number == 0x0C)
}

/// The text that The Wind Waker shows for a tag.
pub open spec fn spec_tww_tag_text(group: u8, number: u16) -> &'static str {
    match group {
        0x00 => match number {
            0x00 => "[Link]",
            0x08 => "\u{2022} ",
            0x09 => "\u{2022} ",
            0x0A => "[A] ",
            0x0B => "[B] ",
            0x0C => "[C] ",
            0x0D => "[L] ",
            0x0E => "[R] ",
            0x0F => "[X] ",
            0x10 => "[Y] ",
            0x11 => "[Z] ",
            0x12 => "[DPad] ",
            0x13 => "[Analog] ",
            0x14 => "\u{1f844} ",
            0x15 => "\u{1f846} ",
            0x16 => "\u{1f845} ",
            0x17 => "\u{1f847} ",
            0x18 => "[AnalogUp] ",
            0x19 => "[AnalogDown] ",
            0x1A => "[AnalogLeft] ",
            0x1B => "[AnalogRight] ",
            0x1C => "[AnalogVertical] ",
            0x1D => "[AnalogHorizontal] ",
            0x1E => "\u{a0}",
            0x1F => "\u{a0}",
            0x20 => "[CanonBalls]",
            0x21 => "[BrokenVasePayment]",
            0x22 => "[AuctionCharacter]",
            0x23 => "[AuctionItem]",
            0x24 => "[AuctionBid]",
            0x25 => "[AuctionStartingBid]",
            0x26 => "[PlayerActionBidSelector]",
            0x27 => "[FlashingA]",
            0x28 => "[OrcaBlowCount]",
            0x29 => "[PiratePassword]",
            0x2A => "[Starburst]",
            0x2B => "[PostOfficeGameLetterCount]",
            0x2C => "[PostOfficeGameRupeeReward]",
            0x2D => "[PostBoxLetterCount]",
            0x2E => "[RemainingKorokCount]",
            0x2F => "[RemainingForestWaterTime]",
            0x30 => "[FlightPlatformTime]",
            0x31 => "[FlightPlatformRecord]",
            0x32 => "[BeedlePointCount]",
            0x33 => "[MsMariePendantCount]",
            0x34 => "[MsMariePendantTotal]",
            0x35 => "[PigGameTime]",
            0x36 => "[SailingGameRupeeReward]",
            0x37 => "[CurrentBombCapacity]",
            0x38 => "[CurrentArrowCapacity]",
            0x39 => "[Heart]",
            0x3A => "[MusicNote]",
            0x3B => "[TargetLetterCount]",
            0x3C => "[FishmanHitCount]",
            0x3D => "[FishmanRupeeReward]",
            0x3E => "[BokoBabaSeedCount]",
            0x3F => "[SkullNecklaceCount]",
            0x40 => "[ChuJellyCount]",
            0x41 => "[JoyPendantCount]",
            0x42 => "[GoldenFeatherCount]",
            0x43 => "[KnightsCrestCount]",
            0x44 => "[BeedleRupeeOffer]",
            0x45 => "[BokoBabaSellSelector]",
            0x46 => "[SkullNecklaceSellSelector]",
            0x47 => "[ChuJellySellSelector]",
            0x48 => "[JoyPendantSellSelector]",
            0x49 => "[GoldenFeatherSellSelector]",
            0x4A => "[KnightsCrestSellSelector]",
            _ => "",
        },
        _ => "",
    }
}

fn tww_tag_text(tag: &Tag) -> (r: &'static str)
    ensures
        r == spec_tww_tag_text(tag.group, tag.number),
{
    match tag.group {
        0x00 => match tag.number {
            0x00 => "[Link]",
            0x08 => "\u{2022} ",
            0x09 => "\u{2022} ",
            0x0A => "[A] ",
            0x0B => "[B] ",
            0x0C => "[C] ",
            0x0D => "[L] ",
            0x0E => "[R] ",
            0x0F => "[X] ",
            0x10 => "[Y] ",
            0x11 => "[Z] ",
            0x12 => "[DPad] ",
            0x13 => "[Analog] ",
            0x14 => "\u{1f844} ",
            0x15 => "\u{1f846} ",
            0x16 => "\u{1f845} ",
            0x17 => "\u{1f847} ",
            0x18 => "[AnalogUp] ",
            0x19 => "[AnalogDown] ",
            0x1A => "[AnalogLeft] ",
            0x1B => "[AnalogRight] ",
            0x1C => "[AnalogVertical] ",
            0x1D => "[AnalogHorizontal] ",
            0x1E => "\u{a0}",
            0x1F => "\u{a0}",
            0x20 => "[CanonBalls]",
            0x21 => "[BrokenVasePayment]",
            0x22 => "[AuctionCharacter]",
            0x23 => "[AuctionItem]",
            0x24 => "[AuctionBid]",
            0x25 => "[AuctionStartingBid]",
            0x26 => "[PlayerActionBidSelector]",
            0x27 => "[FlashingA]",
            0x28 => "[OrcaBlowCount]",
            0x29 => "[PiratePassword]",
            0x2A => "[Starburst]",
            0x2B => "[PostOfficeGameLetterCount]",
            0x2C => "[PostOfficeGameRupeeReward]",
            0x2D => "[PostBoxLetterCount]",
            0x2E => "[RemainingKorokCount]",
            0x2F => "[RemainingForestWaterTime]",
            0x30 => "[FlightPlatformTime]",
            0x31 => "[FlightPlatformRecord]",
            0x32 => "[BeedlePointCount]",
            0x33 => "[MsMariePendantCount]",
            0x34 => "[MsMariePendantTotal]",
            0x35 => "[PigGameTime]",
            0x36 => "[SailingGameRupeeReward]",
            0x37 => "[CurrentBombCapacity]",
            0x38 => "[CurrentArrowCapacity]",
            0x39 => "[Heart]",
            0x3A => "[MusicNote]",
            0x3B => "[TargetLetterCount]",
            0x3C => "[FishmanHitCount]",
            0x3D => "[FishmanRupeeReward]",
            0x3E => "[BokoBabaSeedCount]",
            0x3F => "[SkullNecklaceCount]",
            0x40 => "[ChuJellyCount]",
            0x41 => "[JoyPendantCount]",
            0x42 => "[GoldenFeatherCount]",
            0x43 => "[KnightsCrestCount]",
            0x44 => "[BeedleRupeeOffer]",
            0x45 => "[BokoBabaSellSelector]",
            0x46 => "[SkullNecklaceSellSelector]",
            0x47 => "[ChuJellySellSelector]",
            0x48 => "[JoyPendantSellSelector]",
            0x49 => "[GoldenFeatherSellSelector]",
            0x4A => "[KnightsCrestSellSelector]",
            _ => "",
        },
        _ => "",
    }
}

/// The text that Twilight Princess shows for a tag; two tags choose between
/// two texts by the first payload byte.
pub open spec fn spec_tp_tag_text(group: u8, number: u16, payload: Seq<u8>) -> &'static str {
    match group {
        0x00 => match number {
            0x00 => "[Link]",
            0x08 => "\u{2022} ",
            0x09 => "\u{2022} ",
            0x0A => "[A] ",
            0x0B => "[B] ",
            0x0C => "[C] ",
            0x0D => "[L] ",
            0x0E => "[R] ",
            0x0F => "[X] ",
            0x10 => "[Y] ",
            0x11 => "[Z] ",
            0x12 => "[DPad] ",
            0x13 => "[Analog] ",
            0x14 => "\u{1f844} ",
            0x15 => "\u{1f846} ",
            0x16 => "\u{1f845} ",
            0x17 => "\u{1f847} ",
            0x18 => "[AnalogUp] ",
            0x19 => "[AnalogDown] ",
            0x1A => "[AnalogLeft] ",
            0x1B => "[AnalogRight] ",
            0x1C => "[AnalogVertical] ",
            0x1D => "[AnalogHorizontal] ",
            0x1E => "\u{a0}",
            0x1F => "\u{a0}",
            0x23 => "[RedTarget] ",
            0x24 => "[YellowTarget] ",
            0x2E => "[XorY] ",
            0x39 => "\u{2665} ",
            0x22 => "[Epona]",
            0x29 => "[CurrentScent]",
            0x2B => "[WarpingTo]",
            0x2D => "[Bomb-Name]",
            0x31 => "[Bomb-Count]",
            0x32 => "[Bomb-Price]",
            0x35 => "[nop000035]",
            0x37 => "[Bombcap]",
            0x3B => "[ReturnedBug]",
            0x3C => "[LetterSender]",
            0x3E => "[CurrentLetterPage]",
            0x3F => "[MaxLetterPage]",
            _ => "",
        },
        0x03 => match number {
            0x01 => "[WiiA]",
            0x02 => "[WiiB]",
            0x03 => "[WiiHome]",
            0x04 => "[WiiMinus]",
            0x05 => "[WiiPlus]",
            0x06 => "[Wii1]",
            0x07 => "[Wii2]",
            0x08 => "[WiiD-WE]",
            0x09 => "[WiiD-N]",
            0x0A => "[WiiD-S]",
            0x0B => "[WiiD-WE]",
            0x0C => "[WiiD-E]",
            0x0D => "[WiiD-W]",
            0x0E => "[Wiimote]",
            0x0F => "[WReticule]",
            0x10 => "[WNunchunk]",
            0x11 => "[Wiimote]",
            0x12 => "[Fairy]",
            0x13 => "[WiiC]",
            0x14 => "[WiiZ]",
            _ => "",
        },
        0x04 => match number {
            0x00 => "\u{5deb}",
            0x01 => "\u{55c5}",
            0x02 => "\u{7737}",
            0x03 => "\u{8700}",
            0x04 => "\u{87f2}",
            0x05 => "\u{88d4}",
            0x06 => "\u{60e7}",
            0x07 => "\u{7dba}",
            0x08 => "\u{7f60}",
            0x09 => "\u{7953}",
            0x0A => "\u{589f}",
            0x0B => "\u{7d46}",
            0x0C => "\u{50ed}",
            0x0D => "\u{6191}",
            _ => "",
        },
        0x05 => match number {
            0x00 => "[Time]",
            0x03 => if payload[0] == 0 { "[ReturnedBugs]" } else { "[RemainingBugs]" },
            0x04 => "noop",
            0x07 => "[RiverPoints]",
            0x08 => "[FishLength]",
            0x09 => "[MartGoalLeft]",
            0x0A => "[LetterCount]",
            0x0B => "[PoesNeeded]",
            0x0C => if payload[0] == 0 { "[LatestScore]" } else { "[HighScore]" },
            0x0D => "[FishCount]",
            0x0E => "[RollGoal]",
            _ => "",
        },
        0x06 => match number {
            0x02 => "\u{2642}",
            0x03 => "\u{2640}",
            0x04 => "\u{2605}",
            0x05 => "\u{203b}",
            0x06 => "\u{2190}",
            0x07 => "\u{2192}",
            0x08 => "\u{2191}",
            0x09 => "\u{2193}",
            0x0A => "\u{29eb}",
            0x0B => "\u{a0}",
            _ => "",
        },
        _ => "",
    }
}

fn tp_tag_text(tag: &Tag) -> (r: &'static str)
    requires
        !tp_tag_reads_payload(tag.group, tag.number) || tag.payload@.len() > 0,
    ensures
        r == spec_tp_tag_text(tag.group, tag.number, tag.payload@),
{
    match tag.group {
        0x00 => match tag.number {
            0x00 => "[Link]",
            0x08 => "\u{2022} ",
            0x09 => "\u{2022} ",
            0x0A => "[A] ",
            0x0B => "[B] ",
            0x0C => "[C] ",
            0x0D => "[L] ",
            0x0E => "[R] ",
            0x0F => "[X] ",
            0x10 => "[Y] ",
            0x11 => "[Z] ",
            0x12 => "[DPad] ",
            0x13 => "[Analog] ",
            0x14 => "\u{1f844} ",
            0x15 => "\u{1f846} ",
            0x16 => "\u{1f845} ",
            0x17 => "\u{1f847} ",
            0x18 => "[AnalogUp] ",
            0x19 => "[AnalogDown] ",
            0x1A => "[AnalogLeft] ",
            0x1B => "[AnalogRight] ",
            0x1C => "[AnalogVertical] ",
            0x1D => "[AnalogHorizontal] ",
            0x1E => "\u{a0}",
            0x1F => "\u{a0}",
            0x23 => "[RedTarget] ",
            0x24 => "[YellowTarget] ",
            0x2E => "[XorY] ",
            0x39 => "\u{2665} ",
            0x22 => "[Epona]",
            0x29 => "[CurrentScent]",
            0x2B => "[WarpingTo]",
            0x2D => "[Bomb-Name]",
            0x31 => "[Bomb-Count]",
            0x32 => "[Bomb-Price]",
            0x35 => "[nop000035]",
            0x37 => "[Bombcap]",
            0x3B => "[ReturnedBug]",
            0x3C => "[LetterSender]",
            0x3E => "[CurrentLetterPage]",
            0x3F => "[MaxLetterPage]",
            _ => "",
        },
        0x03 => match tag.number {
            0x01 => "[WiiA]",
            0x02 => "[WiiB]",
            0x03 => "[WiiHome]",
            0x04 => "[WiiMinus]",
            0x05 => "[WiiPlus]",
            0x06 => "[Wii1]",
            0x07 => "[Wii2]",
            0x08 => "[WiiD-WE]",
            0x09 => "[WiiD-N]",
            0x0A => "[WiiD-S]",
            0x0B => "[WiiD-WE]",
            0x0C => "[WiiD-E]",
            0x0D => "[WiiD-W]",
            0x0E => "[Wiimote]",
            0x0F => "[WReticule]",
            0x10 => "[WNunchunk]",
            0x11 => "[Wiimote]",
            0x12 => "[Fairy]",
            0x13 => "[WiiC]",
            0x14 => "[WiiZ]",
            _ => "",
        },
        0x04 => match tag.number {
            0x00 => "\u{5deb}",
            0x01 => "\u{55c5}",
            0x02 => "\u{7737}",
            0x03 => "\u{8700}",
            0x04 => "\u{87f2}",
            0x05 => "\u{88d4}",
            0x06 => "\u{60e7}",
            0x07 => "\u{7dba}",
            0x08 => "\u{7f60}",
            0x09 => "\u{7953}",
            0x0A => "\u{589f}",
            0x0B => "\u{7d46}",
            0x0C => "\u{50ed}",
            0x0D => "\u{6191}",
            _ => "",
        },
        0x05 => match tag.number {
            0x00 => "[Time]",
            0x03 => if tag.payload[0] == 0 { "[ReturnedBugs]" } else { "[RemainingBugs]" },
            0x04 => "noop",
            0x07 => "[RiverPoints]",
            0x08 => "[FishLength]",
            0x09 => "[MartGoalLeft]",
            0x0A => "[LetterCount]",
            0x0B => "[PoesNeeded]",
            0x0C => if tag.payload[0] == 0 { "[LatestScore]" } else { "[HighScore]" },
            0x0D => "[FishCount]",
            0x0E => "[RollGoal]",
            _ => "",
        },
        0x06 => match tag.number {
            0x02 => "\u{2642}",
            0x03 => "\u{2640}",
            0x04 => "\u{2605}",
            0x05 => "\u{203b}",
            0x06 => "\u{2190}",
            0x07 => "\u{2192}",
            0x08 => "\u{2191}",
            0x09 => "\u{2193}",
            0x0A => "\u{29eb}",
            0x0B => "\u{a0}",
            _ => "",
        },
        _ => "",
    }
}

/// The text that Phantom Hourglass shows for a tag.
pub open spec fn spec_ph_tag_text(group: u8) -> &'static str {
    if group == 0 { "[Tag]" } else { "" }
}

/// Whether finding the text of `t` in `game` reads a payload byte that `t`
/// does not have.
pub open spec fn tag_text_defined(game: Game, t: TagView) -> bool {
    game != Game::TwilightPrincess || !tp_tag_reads_payload(t.group, t.number) || t.payload.len() > 0
}

/// The text that `game` shows for the tag `t`.
pub open spec fn spec_tag_replacement(game: Game, t: TagView) -> &'static str {
    match game {
        Game::WindWaker => spec_tww_tag_text(t.group, t.number),
        Game::TwilightPrincess => spec_tp_tag_text(t.group, t.number, t.payload),
        Game::PhantomHourglass => spec_ph_tag_text(t.group),
    }
}

/// The short text that stands for a tag: the game's text when a game is
/// given, else `[Tag]`.
pub open spec fn spec_simple_replacement(game: Option<Game>, t: TagView) -> &'static str {
    match game {
        None => "[Tag]",
        Some(g) => spec_tag_replacement(g, t),
    }
}

/// Whether finding the short text of `t` reads a payload byte that it does
/// not have.
pub open spec fn simple_replacement_defined(game: Option<Game>, t: TagView) -> bool {
    match game {
        None => true,
        Some(g) => tag_text_defined(g, t),
    }
}

/// The game of an optional configuration.
pub open spec fn game_of(config: Option<&GameConfig>) -> Option<Game> {
    match config {
        None => None,
        Some(c) => Some(c.game),
    }
}

impl Tag {
    /// The short text that stands for this tag in plain-text output.
    pub fn get_simple_replacement(&self, config: Option<&GameConfig>) -> (r: &'static str)
        requires
            simple_replacement_defined(game_of(config), self@),
        ensures
            r == spec_simple_replacement(game_of(config), self@),
    {
        match config {
            Some(conf) => conf.get_tag_replacement(self),
            None => "[Tag]",
        }
    }
}

impl GameConfig {
    /// The text that this game shows for `tag`.
    pub fn get_tag_replacement(&self, tag: &Tag) -> (r: &'static str)
        requires
            tag_text_defined(self.game, tag@),
        ensures
            r == spec_tag_replacement(self.game, tag@),
    {
        match self.game {
            Game::WindWaker => tww_tag_text(tag),
            Game::TwilightPrincess => tp_tag_text(tag),
            Game::PhantomHourglass => if tag.group == 0 { "[Tag]" } else { "" },
        }
    }

    /// The HTML color that this game uses for color number `id`.
    pub fn get_color_hex(&self, id: usize) -> (r: &'static str)
        requires
            id < 9,
        ensures
            r == spec_color_hex(self.game, id as int),
    {
        match self.game {
            Game::TwilightPrincess => default_color_hex(id),
            _ => match id {
                0 => "#ffffff",
                1 => "#ff6400",
                2 => "#00ff00",
                3 => "#7878ff",
                4 => "#ffff3c",
                5 => "#00ffff",
                6 => "#ff00ff",
                7 => "#828282",
                _ => "#ff8000",
            },
        }
    }

    /// The style of the message whose attribute bytes are `attribs`.
    pub fn get_message_style(&self, attribs: &MessageAttributes) -> (r: StyleInfo)
        requires
            style_defined(self.game, attribs.payload@),
        ensures
            r@ == spec_message_style(self.game, attribs.payload@),
    {
        match self.game {
            Game::WindWaker => {
                let b = attribs.payload[8];
                let mut style = StyleInfo::plain();
                if b == 0x01 || b == 0x09 || b == 0x0E {
                    style.bg_color = "#3F48CC".to_owned();
                } else if b == 0x02 {
                    style.bg_color = "#A68752".to_owned();
                    style.color = "#000000".to_owned();
                } else if b == 0x06 {
                    style.bg_color = "#84795A".to_owned();
                    style.color = "#000000".to_owned();
                } else if b == 0x07 {
                    style.bg_color = "#BDA273".to_owned();
                    style.color = "#000000".to_owned();
                } else if b == 0x0D {
                    style.centered = true;
                }
                style.style_id = tww_style_id(b).to_owned();
                style
            },
            Game::TwilightPrincess => {
                let b = attribs.payload[5];
                let mut style = StyleInfo::plain();
                if b == 0x07 {
                    style.centered = true;
                } else if b == 0x0C {
                    style.alt_font = true;
                } else if b == 0x0D {
                    style.color = "#b4c8e6".to_owned();
                } else if b == 0x0E {
                    style.color = "#aadc8c".to_owned();
                } else if b == 0x13 {
                    style.centered = true;
                    style.alt_font = true;
                }
                style
            },
            Game::PhantomHourglass => StyleInfo::plain(),
        }
    }

    /// The languages of this game's dumps: a short code and the name of the
    /// folder that holds them.
    pub fn get_languages(&self) -> (r: Vec<(&'static str, &'static str)>)
        ensures
            r@ == spec_languages(self.game),
    {
        let mut r: Vec<(&'static str, &'static str)> = Vec::new();
        match self.game {
            Game::TwilightPrincess => {
                r.push(("jp", "Japanese"));
                r.push(("us", "US English"));
                r.push(("fr", "French"));
                r.push(("de", "German"));
            },
            Game::WindWaker => {
                r.push(("jp", "Japanese"));
                r.push(("uk", "UK English"));
                r.push(("fr", "French"));
                r.push(("de", "German"));
            },
            Game::PhantomHourglass => {
                r.push(("jp", "Japanese"));
            },
        }
        r
    }

    /// The message files of this game, in bank order.
    pub fn get_filenames(&self) -> (r: Vec<&'static str>)
        ensures
            r@ == spec_filenames(self.game),
    {
        let mut r: Vec<&'static str> = Vec::new();
        match self.game {
            Game::TwilightPrincess => {
                r.push("zel_00.bmg");
                r.push("zel_01.bmg");
                r.push("zel_02.bmg");
                r.push("zel_03.bmg");
                r.push("zel_04.bmg");
                r.push("zel_05.bmg");
                r.push("zel_06.bmg");
                r.push("zel_07.bmg");
                r.push("zel_08.bmg");
                r.push("zel_99.bmg");
            },
            Game::WindWaker => {
                r.push("zel_00.bmg");
            },
            Game::PhantomHourglass => {
                r.push("battle.bmg");
            },
        }
        r
    }
}

/// The languages of each game's dumps.
pub open spec fn spec_languages(game: Game) -> Seq<(&'static str, &'static str)> {
    match game {
        Game::TwilightPrincess => seq![("jp", "Japanese"), ("us", "US English"), ("fr", "French"), ("de", "German")],
        Game::WindWaker => seq![("jp", "Japanese"), ("uk", "UK English"), ("fr", "French"), ("de", "German")],
        Game::PhantomHourglass => seq![("jp", "Japanese")],
    }
}

/// The message files of each game.
pub open spec fn spec_filenames(game: Game) -> Seq<&'static str> {
    match game {
        Game::TwilightPrincess => seq![
            "zel_00.bmg", "zel_01.bmg", "zel_02.bmg", "zel_03.bmg", "zel_04.bmg",
            "zel_05.bmg", "zel_06.bmg", "zel_07.bmg", "zel_08.bmg", "zel_99.bmg",
        ],
        Game::WindWaker => seq!["zel_00.bmg"],
        Game::PhantomHourglass => seq!["battle.bmg"],
    }
}

/// The colors used when no game is given (the same as Twilight
/// Princess's).
pub open spec fn spec_default_color_hex(id: int) -> &'static str {
    if id == 0 {
        "#FFFFFF"
    } else if id == 1 {
        "#f07878"
    } else if id == 2 {
        "#aadc8c"
    } else if id == 3 {
        "#a0b4dc"
    } else if id == 4 {
        "#dcdc82"
    } else if id == 5 {
        "#b4c8e6"
    } else if id == 6 {
        "#c8a0dc"
    } else if id == 7 {
        "#ffffff"
    } else {
        "#dcaa78"
    }
}

/// The colors of The Wind Waker and Phantom Hourglass.
pub open spec fn spec_handheld_color_hex(id: int) -> &'static str {
    if id == 0 {
        "#ffffff"
    } else if id == 1 {
        "#ff6400"
    } else if id == 2 {
        "#00ff00"
    } else if id == 3 {
        "#7878ff"
    } else if id == 4 {
        "#ffff3c"
    } else if id == 5 {
        "#00ffff"
    } else if id == 6 {
        "#ff00ff"
    } else if id == 7 {
        "#828282"
    } else {
        "#ff8000"
    }
}

/// The HTML color of color number `id` in `game`.
pub open spec fn spec_color_hex(game: Game, id: int) -> &'static str {
    match game {
        Game::TwilightPrincess => spec_default_color_hex(id),
        _ => spec_handheld_color_hex(id),
    }
}

/// The color used for color number `id` when no game is given.
pub fn default_color_hex(id: usize) -> (r: &'static str)
    requires
        id < 9,
    ensures
        r == spec_default_color_hex(id as int),
{
    match id {
        0 => "#FFFFFF",
        1 => "#f07878",
        2 => "#aadc8c",
        3 => "#a0b4dc",
        4 => "#dcdc82",
        5 => "#b4c8e6",
        6 => "#c8a0dc",
        7 => "#ffffff",
        _ => "#dcaa78",
    }
}

/// The display class of a Wind Waker message style byte, `display-` and
/// the byte in decimal, for the styles that have one.
pub open spec fn spec_tww_style_id(b: u8) -> &'static str {
    if b == 0x01 {
        "display-1"
    } else if b == 0x02 {
        "display-2"
    } else if b == 0x06 {
        "display-6"
    } else if b == 0x07 {
        "display-7"
    } else if b == 0x09 {
        "display-9"
    } else if b == 0x0D {
        "display-13"
    } else if b == 0x0E {
        "display-14"
    } else {
        ""
    }
}

fn tww_style_id(b: u8) -> (r: &'static str)
    ensures
        r == spec_tww_style_id(b),
{
    match b {
        0x01 => "display-1",
        0x02 => "display-2",
        0x06 => "display-6",
        0x07 => "display-7",
        0x09 => "display-9",
        0x0D => "display-13",
        0x0E => "display-14",
        _ => "",
    }
}

/// Whether the attribute bytes hold the style byte that `game` reads.
pub open spec fn style_defined(game: Game, attrs: Seq<u8>) -> bool {
    match game {
        Game::WindWaker => attrs.len() > 8,
        Game::TwilightPrincess => attrs.len() > 5,
        Game::PhantomHourglass => true,
    }
}

/// The style of a message: in The Wind Waker by the byte at 8 (background
/// and text colors, centering, and a display class), in Twilight Princess
/// by the byte at 5 (centering, the alternative font, text colors),
/// plain in Phantom Hourglass.
pub open spec fn spec_message_style(game: Game, attrs: Seq<u8>) -> StyleView {
    match game {
        Game::WindWaker => {
            let b = attrs[8];
            StyleView {
                centered: b == 0x0D,
                color: if b == 0x02 || b == 0x06 || b == 0x07 { "#000000"@ } else { Seq::empty() },
                bg_color: if b == 0x01 || b == 0x09 || b == 0x0E {
                    "#3F48CC"@
                } else if b == 0x02 {
                    "#A68752"@
                } else if b == 0x06 {
                    "#84795A"@
                } else if b == 0x07 {
                    "#BDA273"@
                } else {
                    Seq::empty()
                },
                alt_font: false,
                style_id: spec_tww_style_id(b)@,
            }
        },
        Game::TwilightPrincess => {
            let b = attrs[5];
            StyleView {
                centered: b == 0x07 || b == 0x13,
                color: if b == 0x0D {
                    "#b4c8e6"@
                } else if b == 0x0E {
                    "#aadc8c"@
                } else {
                    Seq::empty()
                },
                bg_color: Seq::empty(),
                alt_font: b == 0x0C || b == 0x13,
                style_id: Seq::empty(),
            }
        },
        Game::PhantomHourglass => plain_style(),
    }
}

} // verus!
