//! Readers for the BMG and MSBT message containers used by several Zelda
//! games, a text-dump reader, and the logic that merges messages of several
//! languages and renders them as HTML, CSV or spreadsheet rows.

pub mod utils;
pub mod bmg_message;
pub mod text_codec;
pub mod bmg_raw_parser;
pub mod game_configs;
pub mod formatting;
pub mod bmg_parser;
pub mod bmg_export;
pub mod msbt_parser;
pub mod bmg_text_parser;
pub mod inspect;
