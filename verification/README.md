# bmg_dump

Reads the message files of several Zelda games (binary BMG and MSBT
containers, and text dumps of BMG files), merges the messages of every
language into one table per game, and renders that table as an HTML page, a
CSV file or spreadsheet runs.

The library in `src/` is verified with Verus: every public function states
what it returns over mathematical models of the file formats and messages,
and the laws of the library (how merging treats texts already in place,
what a parsed file holds in each section slot, how the text format splits
at its tag escapes, ...) are public proof functions named `law_*`.

- `utils`, `text_codec`: byte reading, and decoding through `encoding_rs`
  (the one outside call, behind a trusted wrapper).
- `bmg_message`: messages, tags and attributes.
- `bmg_raw_parser`, `msbt_parser`: the binary containers.
- `bmg_text_parser`: the line format `ID [@SLOT ][ATTRIBUTES] = TEXT` with
  its `\x{...}` tag escapes.
- `inspect`: what a dump of a BMG file shows, and its flow graph.
- `game_configs`: per-game tables (tag texts, colors, styles, languages).
- `bmg_parser`: merging messages bank by bank.
- `formatting`, `bmg_export`: plain text, HTML, CSV and spreadsheet runs.

`app/` is the command-line program: file reading and writing, console
output, and the spreadsheet writer (`rust_xlsxwriter`).
