//! Lyric synchronisation for local media playback: LRC parsing, JSON views
//! of the lyrics around the current line, and the playback state machine.
use std::collections::VecDeque;
use vstd::prelude::*;

pub mod text;
pub mod timestamp;
pub mod lrc;
pub mod json;
pub mod url;
pub mod playback;
pub mod laws;

verus! {

use crate::timestamp::Timestamp;

/// A timed piece of lyrics: the offset at which it is sung and its text.
pub type TimeTag = (Timestamp, String);

/// One lyric line: its time tags in order (one for a plain line, the line tag
/// followed by one per word for an enhanced line).
pub type Lyric = VecDeque<TimeTag>;

/// A time tag as plain values.
pub open spec fn tag_view(t: TimeTag) -> (Timestamp, Seq<char>) {
    (t.0, t.1@)
}

/// A lyric line as plain values.
pub open spec fn lyric_view(l: Lyric) -> Seq<(Timestamp, Seq<char>)> {
    l@.map_values(|t: TimeTag| tag_view(t))
}

/// All lyric lines as plain values.
pub open spec fn lyrics_view(ls: VecDeque<Lyric>) -> Seq<Seq<(Timestamp, Seq<char>)>> {
    ls@.map_values(|l: Lyric| lyric_view(l))
}

} // verus!
