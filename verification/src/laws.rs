//! What holds between the parts: parsed lyrics can be loaded into playback.
use vstd::prelude::*;

verus! {

use crate::json::json_args_ok;
use crate::lrc::grammar::{lrc_is_ascii, parse_lrc};
use crate::lrc::laws::{lemma_parse_lrc_lines_nonempty, lemma_parse_lrc_times_wf};
use crate::playback::lyrics_times_wf;

/// Lyrics parsed from a text whose times are written in ASCII digits can be
/// loaded: all their times are valid durations, and the first JSON message
/// (line 0, word 0) can be built whenever the window fits in `u32`.
pub proof fn lemma_parsed_lyrics_load(s: Seq<char>, step: int)
    requires
        lrc_is_ascii(s),
        0 <= step,
    ensures
        lyrics_times_wf(parse_lrc(s)),
        json_args_ok(parse_lrc(s), 0, 0, step) <==> step + 1 <= u32::MAX,
{
    lemma_parse_lrc_times_wf(s);
    lemma_parse_lrc_lines_nonempty(s);
    if parse_lrc(s).len() > 0 {
        assert(parse_lrc(s)[0].len() >= 1);
    }
}

} // verus!
