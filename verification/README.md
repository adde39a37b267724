# kiril

A lyric player for local media playback: it follows the active MPRIS player,
finds the `.lrc` file next to the playing track, and prints the lines (or, for
enhanced LRC files, the words) as they are sung, as plain text or as JSON
messages for widgets.

Layout:

- `src/` — the verified library (Verus):
  - `lrc/grammar.rs` — the LRC grammar as specifications (time tags, line tags,
    word tags, lines) and the executable matchers;
  - `lrc/parse.rs` — `parse_lrc_file` and `parse_timestamp`;
  - `lrc/find.rs` — where a track's lyric file is looked for (directory and name, via `std::path`) and the order of the search;
  - `lrc/laws.rs`, `laws.rs` — properties of every parse;
  - `json.rs` — `json_convert`, the JSON view of the lines around the current one;
  - `playback.rs` — the playback state machine that decides which word is sung;
  - `url.rs` — `file://` URLs to local paths (percent-decoding by `urlencoding`);
  - `text.rs`, `timestamp.rs` — whitespace, trimming, and time offsets.
- `app/` — the program: argument handling, the MPRIS player (D-Bus), file
  system search and reading, sleeping, printing, and JSON serialisation.
- `tests/` — tests of the library.
