//! The playback state machine: which lyric line and word is being sung at a
//! given player position, and what to show when it changes. The caller queries
//! the player, sleeps and prints; this module decides.
use std::collections::VecDeque;
use vstd::prelude::*;

verus! {

use crate::json::{json_args_fit, json_args_ok, json_convert, json_fields_ok, JsonLyrics};
use crate::text::{
    chars_are_blank, chars_of, is_blank, is_ws, lemma_trim_bounds, string_from_chars, trim,
    trim_chars,
};
use crate::timestamp::Timestamp;
use crate::{lyric_view, lyrics_view, tag_view, Lyric, TimeTag};

/// What the caller does after [`Playback::advance`].
#[derive(PartialEq, Eq, Structural, Debug, Clone, Copy)]
pub enum Next {
    /// The lyrics are exhausted in an unexpected way: go back to searching a player.
    Break,
    /// The current word has been reached: call [`Playback::commit`] now.
    Commit,
    /// Sleep this long, then start over.
    Sleep(Timestamp),
    /// Sleep this long; then, if the player still plays, call [`Playback::commit`].
    Await(Timestamp),
}

/// The result of [`Playback::advance`]: whether a new line began in text
/// mode (print a line break first), and what comes next.
#[derive(PartialEq, Eq, Structural, Debug, Clone, Copy)]
pub struct Advance {
    pub line_break: bool,
    pub next: Next,
}

/// What to print when a word is reached.
#[derive(Debug)]
pub enum Output {
    /// The JSON message of the new position (JSON mode).
    Json(JsonLyrics),
    /// The word, trimmed, to print followed by a space; `None` when it is blank (text mode).
    Word(Option<String>),
}

/// The state of lyric playback for one player.
pub struct Playback {
    /// JSON output instead of plain text.
    pub json: bool,
    /// How many lines before and after the current one a JSON message holds.
    pub step: u32,
    /// The longest sleep between two looks at the player.
    pub retry: Timestamp,
    /// The lyrics of the current track, all lines.
    pub lyrics: VecDeque<Lyric>,
    /// How many lines have been taken up.
    pub next_line: usize,
    /// How many time tags of the last line taken up have been taken up.
    pub next_word: usize,
    /// Index of the line being sung in JSON mode (-1 before the first).
    pub line_num: i32,
    /// The player position seen last.
    pub prev_pos: Timestamp,
    /// The track seen last.
    pub prev_song: Option<String>,
    /// The word shown last.
    pub prev_word: TimeTag,
    /// The word taken up last, shown or waited for.
    pub curr_word: TimeTag,
    /// Index of the current word within the current line.
    pub word_num: u32,
    /// A line was taken up and its first word has not been shown yet (JSON mode).
    pub newline: bool,
}

/// Every time in the lyrics is a valid duration.
pub open spec fn lyrics_times_wf(ls: Seq<Seq<(Timestamp, Seq<char>)>>) -> bool {
    forall|i: int, j: int| 0 <= i < ls.len() && 0 <= j < ls[i].len() ==> (#[trigger] ls[i][j]).0.wf()
}

/// Two time tags are equal (same time, same text).
pub open spec fn tag_eq(a: TimeTag, b: TimeTag) -> bool {
    a.0 == b.0 && a.1@ == b.1@
}

/// Two optional track ids are equal.
pub open spec fn song_eq(a: Option<String>, b: Option<String>) -> bool {
    match (a, b) {
        (Some(x), Some(y)) => x@ == y@,
        (None, None) => true,
        _ => false,
    }
}

impl Playback {
    /// The lyrics as plain values.
    pub open spec fn ls(&self) -> Seq<Seq<(Timestamp, Seq<char>)>> {
        lyrics_view(self.lyrics)
    }

    /// The lines not taken up yet.
    pub open spec fn remaining_lines(&self) -> Seq<Seq<(Timestamp, Seq<char>)>> {
        self.ls().skip(self.next_line as int)
    }

    /// The time tags of the current line not taken up yet.
    pub open spec fn current_line(&self) -> Seq<(Timestamp, Seq<char>)> {
        if self.next_line == 0 {
            Seq::empty()
        } else {
            self.ls()[self.next_line - 1].skip(self.next_word as int)
        }
    }

    /// The positions are consistent and every time is a valid duration.
    pub open spec fn wf(&self) -> bool {
        &&& self.next_line <= self.lyrics@.len()
        &&& self.next_line == 0 ==> self.next_word == 0
        &&& self.next_line > 0 ==> self.next_word <= self.lyrics@[self.next_line - 1]@.len()
        &&& lyrics_times_wf(self.ls())
        &&& self.retry.wf()
        &&& self.prev_word.0.wf()
        &&& self.curr_word.0.wf()
    }

    /// The line and word indices a commit moves to: the next line and its
    /// first word when a line was taken up, else the next word.
    pub open spec fn committed_indices(&self) -> (int, int) {
        if self.newline {
            (self.line_num + 1, 0)
        } else {
            (self.line_num as int, self.word_num + 1)
        }
    }

    /// A commit stays within the integer types: the word counter can grow, and
    /// in JSON mode the line counter can grow and the message can be built.
    pub open spec fn commit_fits(&self) -> bool {
        &&& self.word_num + 1 <= u32::MAX
        &&& self.json ==> {
            let (ln, wn) = self.committed_indices();
            &&& ln <= i32::MAX
            &&& 0 <= ln
            &&& json_args_ok(self.ls(), ln, wn, self.step as int)
        }
    }

    /// A fresh state: no lyrics, no track, position zero, before the first line.
    pub fn new(json: bool, step: u32, retry: Timestamp) -> (r: Playback)
        requires
            retry.wf(),
        ensures
            r.wf(),
            r.json == json,
            r.step == step,
            r.retry == retry,
            r.ls().len() == 0,
            r.next_line == 0,
            r.line_num == -1,
            r.prev_pos == Timestamp::zero_spec(),
            r.prev_song is None,
            r.prev_word.0 == Timestamp::zero_spec() && r.prev_word.1@.len() == 0,
            r.curr_word.0 == Timestamp::zero_spec() && r.curr_word.1@.len() == 0,
            r.word_num == 0,
            r.newline,
    {
        let r = Playback {
            json,
            step,
            retry,
            lyrics: VecDeque::new(),
            next_line: 0,
            next_word: 0,
            line_num: -1,
            prev_pos: Timestamp::zero(),
            prev_song: None,
            prev_word: (Timestamp::zero(), String::new()),
            curr_word: (Timestamp::zero(), String::new()),
            word_num: 0,
            newline: true,
        };
        assert(r.ls() =~= Seq::<Seq<(Timestamp, Seq<char>)>>::empty());
        r
    }
}

/// Whether two time tags are equal.
fn tag_equal(a: &TimeTag, b: &TimeTag) -> (r: bool)
    ensures
        r == tag_eq(*a, *b),
{
    a.0 == b.0 && a.1 == b.1
}

/// Whether two optional track ids are equal.
fn song_equal(a: &Option<String>, b: &Option<String>) -> (r: bool)
    ensures
        r == song_eq(*a, *b),
{
    match (a, b) {
        (Some(x), Some(y)) => *x == *y,
        (None, None) => true,
        _ => false,
    }
}

/// A copy of a time tag.
fn copy_tag(t: &TimeTag) -> (r: TimeTag)
    ensures
        r.0 == t.0,
        r.1@ == t.1@,
{
    (t.0, t.1.clone())
}

impl Playback {
    /// The state with only the last seen position changed.
    pub open spec fn with_prev_pos(self, pos: Timestamp) -> Playback {
        Playback { prev_pos: pos, ..self }
    }

    /// The line taken up last has no time tag left to take up.
    pub open spec fn current_line_done(&self) -> bool {
        self.current_line().len() == 0
    }

    /// Records the player's track and position; whether the lyrics must be
    /// loaded again: the track changed, or the position went back (a seek).
    pub fn observe(&mut self, song: &Option<String>, pos: Timestamp) -> (reload: bool)
        ensures
            reload == (!song_eq(old(self).prev_song, *song) || pos.spec_lt(old(self).prev_pos)),
            *final(self) == old(self).with_prev_pos(pos),
    {
        let reload = !song_equal(&self.prev_song, song) || pos.lt(&self.prev_pos);
        self.prev_pos = pos;
        reload
    }

    /// Starts over with the lyrics of a new track (or after a seek): before
    /// the first line, no word shown. In JSON mode, the message for line 0,
    /// word 0, carrying the cover path.
    pub fn reload(&mut self, song: Option<String>, lyrics: VecDeque<Lyric>, cover: String) -> (r:
        Option<JsonLyrics>)
        requires
            old(self).wf(),
            lyrics_times_wf(lyrics_view(lyrics)),
            old(self).json ==> json_args_ok(lyrics_view(lyrics), 0, 0, old(self).step as int),
        ensures
            final(self).wf(),
            final(self).lyrics == lyrics,
            final(self).next_line == 0,
            final(self).next_word == 0,
            final(self).line_num == -1,
            final(self).word_num == 0,
            final(self).prev_word.0 == Timestamp::zero_spec(),
            final(self).prev_word.1@.len() == 0,
            final(self).curr_word.0 == Timestamp::zero_spec(),
            final(self).curr_word.1@.len() == 0,
            final(self).prev_song == song,
            final(self).json == old(self).json,
            final(self).step == old(self).step,
            final(self).retry == old(self).retry,
            final(self).prev_pos == old(self).prev_pos,
            final(self).newline == old(self).newline,
            old(self).json ==> (r matches Some(m) && json_fields_ok(
                m,
                lyrics_view(lyrics),
                0,
                0,
                old(self).step as int,
                cover@,
            )),
            !old(self).json ==> r is None,
    {
        self.line_num = -1;
        self.word_num = 0;
        self.next_line = 0;
        self.next_word = 0;
        self.curr_word = (Timestamp::zero(), String::new());
        self.prev_word = (Timestamp::zero(), String::new());
        self.prev_song = song;
        self.lyrics = lyrics;
        if self.json {
            Some(json_convert(&self.lyrics, 0, self.word_num, self.step, cover))
        } else {
            None
        }
    }
}

/// What follows once the current word has time `t`, at player position
/// `pos`: commit it when it has been passed; else sleep `retry` when the word
/// is further away than that; else wait exactly until the word.
pub open spec fn wait_ok(n: Next, t: Timestamp, pos: Timestamp, retry: Timestamp) -> bool {
    if t.spec_lt(pos) {
        n == Next::Commit
    } else if retry.total_nanos() < t.total_nanos() - pos.total_nanos() {
        n == Next::Sleep(retry)
    } else {
        n matches Next::Await(d) && d.wf() && d.total_nanos() == t.total_nanos()
            - pos.total_nanos()
    }
}

/// The step [`Playback::advance`] takes from `s` to `t` at position `pos`,
/// returning `r`.
pub open spec fn advance_ok(s: Playback, t: Playback, pos: Timestamp, r: Advance) -> bool {
    if s.takes_line() && s.remaining_lines().len() == 0 {
        t == s && r == (Advance { line_break: false, next: Next::Sleep(s.retry) })
    } else {
        let (nl, nw) = s.after_line_taken();
        let takes_word = tag_eq(s.prev_word, s.curr_word);
        &&& r.line_break == (s.takes_line() && !s.json)
        &&& t.newline == (s.newline || (s.takes_line() && s.json))
        &&& t.next_line == nl
        &&& if takes_word && nw >= s.ls()[nl - 1].len() {
            &&& r.next == Next::Break
            &&& t.next_word == nw
            &&& t.curr_word == s.curr_word
        } else {
            &&& t.next_word == nw + (if takes_word {
                1int
            } else {
                0
            })
            &&& takes_word ==> tag_view(t.curr_word) == s.ls()[nl - 1][nw]
            &&& !takes_word ==> t.curr_word == s.curr_word
            &&& wait_ok(r.next, t.curr_word.0, pos, s.retry)
        }
    }
}

/// What [`Playback::commit`] shows and how it moves the counters from `s` to `t`.
pub open spec fn commit_ok(s: Playback, t: Playback, r: Output) -> bool {
    if s.json {
        let (ln, wn) = s.committed_indices();
        &&& t.line_num == ln
        &&& t.word_num == wn
        &&& !t.newline
        &&& r matches Output::Json(m) && json_fields_ok(m, s.ls(), ln, wn, s.step as int, Seq::empty())
    } else {
        &&& t.line_num == s.line_num
        &&& t.word_num == s.word_num + 1
        &&& t.newline == s.newline
        &&& r matches Output::Word(w) && if is_blank(s.curr_word.1@) {
            w is None
        } else {
            w matches Some(x) && x@ == trim(s.curr_word.1@)
        }
    }
}

impl Playback {
    /// A line is taken up next: the current one is done and the word taken up
    /// last has been shown (or is the same as the one shown).
    pub open spec fn takes_line(&self) -> bool {
        self.current_line_done() && tag_eq(self.prev_word, self.curr_word)
    }

    /// Lines and tags taken up once the next line, if due, is.
    pub open spec fn after_line_taken(&self) -> (int, int) {
        if self.takes_line() {
            (self.next_line + 1, 0)
        } else {
            (self.next_line as int, self.next_word as int)
        }
    }

    /// `self` and `other` agree on the settings, the lyrics, the last position
    /// and track, and on what has been shown.
    pub open spec fn keeps_shown(&self, other: &Playback) -> bool {
        &&& self.json == other.json
        &&& self.step == other.step
        &&& self.retry == other.retry
        &&& self.lyrics == other.lyrics
        &&& self.line_num == other.line_num
        &&& self.prev_pos == other.prev_pos
        &&& self.prev_song == other.prev_song
        &&& self.prev_word == other.prev_word
        &&& self.word_num == other.word_num
    }

    /// One step of playing at position `pos`. When the current line is done,
    /// its last word was shown and no line is left: sleep `retry`. Otherwise
    /// take up the next line when the current one is done and its last word
    /// was shown (marking a new line); then take up the
    /// next word when the last one was shown (`Break` when the line has none);
    /// then commit, sleep or wait according to [`wait_ok`].
    pub fn advance(&mut self, pos: Timestamp) -> (r: Advance)
        requires
            old(self).wf(),
            pos.wf(),
        ensures
            final(self).wf(),
            final(self).keeps_shown(&old(self)),
            advance_ok(*old(self), *final(self), pos, r),
    {
        let ghost ls = self.ls();
        let same = tag_equal(&self.prev_word, &self.curr_word);
        let done = self.next_line == 0 || self.next_word >= self.lyrics[self.next_line - 1].len();
        proof {
            if self.next_line > 0 {
                assert(ls[self.next_line - 1] == lyric_view(self.lyrics@[self.next_line - 1]));
            }
            assert(done == self.current_line_done());
        }
        if done && same && self.next_line >= self.lyrics.len() {
            proof {
                assert(self.remaining_lines() =~= Seq::<Seq<(Timestamp, Seq<char>)>>::empty());
            }
            return Advance { line_break: false, next: Next::Sleep(self.retry) };
        }
        proof {
            if done && same {
                assert(self.remaining_lines().len() > 0);
            }
        }
        let mut line_break = false;
        if done && same {
            self.next_line = self.next_line + 1;
            self.next_word = 0;
            if self.json {
                self.newline = true;
            } else {
                line_break = true;
            }
        }
        if same {
            let n = self.lyrics[self.next_line - 1].len();
            proof {
                assert(ls[self.next_line - 1] == lyric_view(self.lyrics@[self.next_line - 1]));
            }
            if self.next_word >= n {
                return Advance { line_break, next: Next::Break };
            }
            let w = copy_tag(&self.lyrics[self.next_line - 1][self.next_word]);
            self.curr_word = w;
            self.next_word = self.next_word + 1;
            proof {
                assert(lyrics_times_wf(ls));
                assert(ls[self.next_line - 1][self.next_word - 1].0 == w.0);
            }
        }
        let t = self.curr_word.0;
        let next = if t.lt(&pos) {
            Next::Commit
        } else {
            let d = t.sub(&pos);
            proof {
                crate::timestamp::lemma_lt_is_nanos_order(self.retry, d);
            }
            if self.retry.lt(&d) {
                Next::Sleep(self.retry)
            } else {
                Next::Await(d)
            }
        };
        Advance { line_break, next }
    }

    /// Shows the current word: it becomes the word shown last and the word
    /// counter moves on. In JSON mode a newly taken-up line moves the line
    /// counter on and restarts the word counter at 0, and the output is the
    /// JSON message at the new indices; in text mode the output is the trimmed
    /// word, or nothing when it is blank.
    pub fn commit(&mut self) -> (r: Output)
        requires
            old(self).wf(),
            old(self).commit_fits(),
        ensures
            final(self).wf(),
            tag_eq(final(self).prev_word, old(self).curr_word),
            final(self).json == old(self).json,
            final(self).step == old(self).step,
            final(self).retry == old(self).retry,
            final(self).lyrics == old(self).lyrics,
            final(self).next_line == old(self).next_line,
            final(self).next_word == old(self).next_word,
            final(self).prev_pos == old(self).prev_pos,
            final(self).prev_song == old(self).prev_song,
            final(self).curr_word == old(self).curr_word,
            commit_ok(*old(self), *final(self), r),
    {
        self.prev_word = copy_tag(&self.curr_word);
        self.word_num = self.word_num + 1;
        if self.json {
            if self.newline {
                self.newline = false;
                self.line_num = self.line_num + 1;
                self.word_num = 0;
            }
            Output::Json(
                json_convert(&self.lyrics, self.line_num as u32, self.word_num, self.step, String::new()),
            )
        } else {
            let w = chars_of(self.curr_word.1.as_str());
            if !chars_are_blank(w.as_slice()) {
                let tw = trim_chars(w.as_slice());
                Output::Word(Some(string_from_chars(tw.as_slice())))
            } else {
                Output::Word(None)
            }
        }
    }

    /// Whether [`Playback::commit`] may be called now: exactly [`Playback::commit_fits`].
    pub fn can_commit(&self) -> (r: bool)
        ensures
            r == self.commit_fits(),
    {
        if self.word_num == u32::MAX {
            return false;
        }
        if !self.json {
            return true;
        }
        let ln: i64 = if self.newline {
            self.line_num as i64 + 1
        } else {
            self.line_num as i64
        };
        let wn: u32 = if self.newline {
            0
        } else {
            self.word_num + 1
        };
        if ln < 0 || ln > i32::MAX as i64 {
            return false;
        }
        json_args_fit(&self.lyrics, ln as u32, wn, self.step)
    }
}

/// Polling again on the track just loaded, at a position not before the one
/// seen, does not load the lyrics again.
pub proof fn lemma_steady_poll_keeps_lyrics(
    s: Playback,
    song: Option<String>,
    pos: Timestamp,
    later: Timestamp,
)
    requires
        s.prev_song == song,
        s.prev_pos == pos,
        !later.spec_lt(pos),
    ensures
        !(!song_eq(s.prev_song, song) || later.spec_lt(s.prev_pos)),
{
}

/// Once a word has been shown, the next step takes up a new time tag (the
/// next one of the line, or the first of the next line), or breaks off.
pub proof fn lemma_shown_word_moves_on(s: Playback, t: Playback, u: Playback, pos: Timestamp, r: Advance)
    requires
        s.wf(),
        t.wf(),
        tag_eq(t.prev_word, s.curr_word),
        t.curr_word == s.curr_word,
        t.next_line == s.next_line,
        t.next_word == s.next_word,
        t.remaining_lines().len() > 0 || !t.current_line_done(),
        advance_ok(t, u, pos, r),
        u.keeps_shown(&t),
    ensures
        r.next != Next::Break ==> {
            &&& u.next_line > t.next_line || (u.next_line == t.next_line && u.next_word == t.next_word + 1)
            &&& 1 <= u.next_line
            &&& 1 <= u.next_word
            &&& tag_view(u.curr_word) == u.ls()[u.next_line - 1][u.next_word - 1]
        },
{
}

/// The zero time tag: offset zero, no text (what a fresh or reloaded state holds).
pub open spec fn zero_tag() -> (Timestamp, Seq<char>) {
    (Timestamp::zero_spec(), Seq::empty())
}

/// The tag before position `(i, j)` in reading order: the one before it in its
/// line, else the last one of the line before, else the zero tag.
pub open spec fn tag_before(ls: Seq<Seq<(Timestamp, Seq<char>)>>, i: int, j: int) -> (
    Timestamp,
    Seq<char>,
) {
    if j >= 1 {
        ls[i][j - 1]
    } else if i >= 1 {
        ls[i - 1].last()
    } else {
        zero_tag()
    }
}

/// Every line holds a tag, and every tag differs from the tag before it in
/// reading order (the first one from the zero tag).
pub open spec fn tags_distinct_in_order(ls: Seq<Seq<(Timestamp, Seq<char>)>>) -> bool {
    &&& forall|i: int| 0 <= i < ls.len() ==> (#[trigger] ls[i]).len() >= 1
    &&& forall|i: int, j: int|
        0 <= i < ls.len() && 0 <= j < ls[i].len() ==> #[trigger] ls[i][j] != tag_before(ls, i, j)
}

impl Playback {
    /// The word taken up last has not been shown yet.
    pub open spec fn pending(&self) -> bool {
        !tag_eq(self.prev_word, self.curr_word)
    }

    /// In JSON mode, the counters point at the tag taken up last: it is the
    /// tag at `(next_line - 1, next_word - 1)`; once shown, `line_num` and
    /// `word_num` are its indices; before that, they are those of the tag
    /// before it in its line (or `newline` is set when it opens its line), and
    /// the word shown last is the tag before it in reading order.
    pub open spec fn json_in_sync(&self) -> bool {
        let ls = self.ls();
        let nl = self.next_line as int;
        let nw = self.next_word as int;
        if nl == 0 {
            &&& nw == 0
            &&& self.line_num == -1
            &&& tag_view(self.prev_word) == zero_tag()
            &&& tag_view(self.curr_word) == zero_tag()
        } else {
            &&& 1 <= nw
            &&& tag_view(self.curr_word) == ls[nl - 1][nw - 1]
            &&& if self.pending() {
                &&& tag_view(self.prev_word) == tag_before(ls, nl - 1, nw - 1)
                &&& if nw == 1 {
                    self.newline && self.line_num == nl - 2
                } else {
                    !self.newline && self.line_num == nl - 1 && self.word_num == nw - 2
                }
            } else {
                !self.newline && self.line_num == nl - 1 && self.word_num == nw - 1
            }
        }
    }
}

/// Loading lyrics puts the counters in sync.
pub proof fn lemma_reload_syncs(s: Playback)
    requires
        s.next_line == 0,
        s.next_word == 0,
        s.line_num == -1,
        s.prev_word.0 == Timestamp::zero_spec(),
        s.prev_word.1@.len() == 0,
        s.curr_word.0 == Timestamp::zero_spec(),
        s.curr_word.1@.len() == 0,
    ensures
        s.json_in_sync(),
{
    assert(s.prev_word.1@ =~= Seq::<char>::empty());
    assert(s.curr_word.1@ =~= Seq::<char>::empty());
}

/// Recording a position keeps the counters in sync.
pub proof fn lemma_observe_keeps_sync(s: Playback, pos: Timestamp)
    requires
        s.json_in_sync(),
    ensures
        s.with_prev_pos(pos).json_in_sync(),
{
}

/// When consecutive tags differ, a step that does not break off keeps the
/// counters in sync, and a step that commits or waits for a word leaves it
/// pending.
pub proof fn lemma_advance_keeps_sync(s: Playback, t: Playback, pos: Timestamp, r: Advance)
    requires
        s.wf(),
        s.json,
        s.json_in_sync(),
        tags_distinct_in_order(s.ls()),
        advance_ok(s, t, pos, r),
        t.keeps_shown(&s),
        r.next != Next::Break,
    ensures
        t.json_in_sync(),
        (r.next == Next::Commit || r.next is Await) ==> t.pending(),
{
    let ls = s.ls();
    if !(s.takes_line() && s.remaining_lines().len() == 0) {
        let nl = s.next_line as int;
        let nw = s.next_word as int;
        if nl == 0 {
            assert(s.next_line < s.lyrics@.len());
            assert(s.current_line() =~= Seq::<(Timestamp, Seq<char>)>::empty());
            assert(tag_eq(s.prev_word, s.curr_word));
            assert(ls[0].len() >= 1);
            assert(ls[0][0] != tag_before(ls, 0, 0));
        } else if s.pending() {
        } else {
            assert(ls[nl - 1].len() == s.lyrics@[nl - 1]@.len());
            if nw >= ls[nl - 1].len() {
                assert(s.current_line().len() == 0);
                assert(s.next_line < s.lyrics@.len());
                assert(ls[nl].len() >= 1);
                assert(ls[nl][0] != tag_before(ls, nl, 0));
                assert(tag_before(ls, nl, 0) == ls[nl - 1][nw - 1]);
            } else {
                assert(s.current_line().len() > 0);
                assert(ls[nl - 1][nw] != tag_before(ls, nl - 1, nw));
            }
        }
    }
}

/// Showing a pending word in sync moves the counters to its indices and
/// keeps them in sync.
pub proof fn lemma_commit_keeps_sync(s: Playback, t: Playback, out: Output)
    requires
        s.json,
        s.json_in_sync(),
        s.pending(),
        commit_ok(s, t, out),
        tag_eq(t.prev_word, s.curr_word),
        t.curr_word == s.curr_word,
        t.lyrics == s.lyrics,
        t.next_line == s.next_line,
        t.next_word == s.next_word,
    ensures
        t.json_in_sync(),
        !t.pending(),
        t.line_num == s.next_line - 1,
        t.word_num == s.next_word - 1,
{
}

/// In JSON mode with consecutive tags distinct, a pending word in sync can
/// always be shown, short of the counters leaving their integer types: its
/// message is about the line and word of the tag being shown.
pub proof fn lemma_json_message_in_range(s: Playback)
    requires
        s.wf(),
        s.json,
        s.json_in_sync(),
        s.pending(),
        tags_distinct_in_order(s.ls()),
        s.next_line + s.step <= u32::MAX,
        s.next_line <= i32::MAX + 1,
        s.next_word + 1 <= u32::MAX,
        s.word_num + 1 <= u32::MAX,
    ensures
        s.commit_fits(),
        s.committed_indices() == (s.next_line - 1, s.next_word - 1),
{
    let ls = s.ls();
    let nl = s.next_line as int;
    assert(ls[nl - 1].len() >= 1);
    assert(ls[nl - 1].len() == s.lyrics@[nl - 1]@.len());
}

/// In every mode, a word taken up but not shown yet (it differs from the word
/// shown last in time or in text) is never skipped: the step keeps it and its
/// place, starts no line, and commits it once its time has passed, else
/// sleeps `retry` when it is further away than that, else waits exactly
/// until it.
pub proof fn lemma_pending_word_kept(s: Playback, t: Playback, pos: Timestamp, r: Advance)
    requires
        s.wf(),
        pos.wf(),
        advance_ok(s, t, pos, r),
        s.prev_word.0 != s.curr_word.0 || s.prev_word.1@ != s.curr_word.1@,
    ensures
        t.curr_word == s.curr_word,
        t.next_line == s.next_line,
        t.next_word == s.next_word,
        t.newline == s.newline,
        !r.line_break,
        r.next == Next::Commit <==> (s.curr_word.0.secs < pos.secs || (s.curr_word.0.secs
            == pos.secs && s.curr_word.0.nanos < pos.nanos)),
        r.next matches Next::Sleep(d) ==> d == s.retry && s.retry.secs * 1_000_000_000
            + s.retry.nanos < (s.curr_word.0.secs - pos.secs) * 1_000_000_000 + s.curr_word.0.nanos
            - pos.nanos,
        r.next matches Next::Await(d) ==> d.nanos < 1_000_000_000 && d.secs * 1_000_000_000
            + d.nanos == (s.curr_word.0.secs - pos.secs) * 1_000_000_000 + s.curr_word.0.nanos
            - pos.nanos && d.secs * 1_000_000_000 + d.nanos <= s.retry.secs * 1_000_000_000
            + s.retry.nanos,
        r.next != Next::Break,
{
}

/// In every mode, once the word taken up last has been shown (it equals the
/// word shown last in time and text) and its line has a tag left, the step
/// takes up that next tag of the same line.
pub proof fn lemma_next_tag_taken(s: Playback, t: Playback, pos: Timestamp, r: Advance)
    requires
        s.wf(),
        pos.wf(),
        advance_ok(s, t, pos, r),
        s.prev_word.0 == s.curr_word.0,
        s.prev_word.1@ == s.curr_word.1@,
        1 <= s.next_line,
        s.next_word < s.lyrics@[s.next_line - 1]@.len(),
    ensures
        t.next_line == s.next_line,
        t.next_word == s.next_word + 1,
        t.curr_word.0 == s.lyrics@[s.next_line - 1]@[s.next_word as int].0,
        t.curr_word.1@ == s.lyrics@[s.next_line - 1]@[s.next_word as int].1@,
        !r.line_break,
        r.next != Next::Break,
{
    let ls = s.ls();
    assert(ls[s.next_line - 1] == lyric_view(s.lyrics@[s.next_line - 1]));
    assert(s.current_line().len() > 0);
}

/// In every mode, once the word taken up last has been shown (it equals the
/// word shown last in time and text), its line has no tag left and a line is
/// left, the step takes up the next line and its first tag; a line break is
/// printed in text mode, and JSON mode marks a new line.
pub proof fn lemma_next_line_taken(s: Playback, t: Playback, pos: Timestamp, r: Advance)
    requires
        s.wf(),
        pos.wf(),
        advance_ok(s, t, pos, r),
        s.prev_word.0 == s.curr_word.0,
        s.prev_word.1@ == s.curr_word.1@,
        s.next_line == 0 || s.next_word >= s.lyrics@[s.next_line - 1]@.len(),
        s.next_line < s.lyrics@.len(),
        s.lyrics@[s.next_line as int]@.len() >= 1,
    ensures
        t.next_line == s.next_line + 1,
        t.next_word == 1,
        t.curr_word.0 == s.lyrics@[s.next_line as int]@[0].0,
        t.curr_word.1@ == s.lyrics@[s.next_line as int]@[0].1@,
        r.line_break == !s.json,
        s.json ==> t.newline,
        r.next != Next::Break,
{
    let ls = s.ls();
    if s.next_line > 0 {
        assert(ls[s.next_line - 1] == lyric_view(s.lyrics@[s.next_line - 1]));
    }
    assert(ls[s.next_line as int] == lyric_view(s.lyrics@[s.next_line as int]));
    assert(s.current_line().len() == 0);
    assert(s.remaining_lines().len() > 0);
}

/// In text mode, showing a word prints nothing when it is all whitespace, and
/// otherwise exactly the word without its leading and trailing whitespace: a
/// piece `word[a..b]` with only whitespace before `a` and from `b` on, and no
/// whitespace at either end of the piece.
pub proof fn lemma_text_word_shown_whole(s: Playback, t: Playback, out: Output)
    requires
        !s.json,
        commit_ok(s, t, out),
    ensures
        out is Word,
        (out matches Output::Word(w) && w is None) <==> forall|k: int|
            0 <= k < s.curr_word.1@.len() ==> is_ws(#[trigger] s.curr_word.1@[k]),
        out matches Output::Word(Some(x)) ==> exists|a: int, b: int|
            0 <= a < b <= s.curr_word.1@.len() && x@ == s.curr_word.1@.subrange(a, b) && (forall|
                k: int,
            | 0 <= k < a ==> is_ws(#[trigger] s.curr_word.1@[k])) && (forall|k: int|
                b <= k < s.curr_word.1@.len() ==> is_ws(#[trigger] s.curr_word.1@[k]))
                && !is_ws(s.curr_word.1@[a]) && !is_ws(s.curr_word.1@[b - 1]),
{
    let w = s.curr_word.1@;
    let (a, b) = lemma_trim_bounds(w);
    if let Output::Word(Some(x)) = out {
        assert(0 <= a < b <= w.len() && x@ == w.subrange(a, b));
    }
}

} // verus!
