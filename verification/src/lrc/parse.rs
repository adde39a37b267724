//! Parsing LRC text into lyric lines.
use std::collections::VecDeque;
use vstd::prelude::*;

verus! {

use crate::lrc::grammar::{
    ascii_digits, fields_fit, first_time_value, has_ascii_time, has_word_tag, time_search, is_ascii_digit, line_is_ascii, line_time, lrc_is_ascii, parse_line,
    parse_lines, parse_lrc, split_lines, tag_text, time_at_exec, time_is_ascii, time_len,
    time_value, time_value_exec, word_end, word_tag_at, word_tags, word_tags_ascii,
    lemma_word_tags_step,
};
use crate::text::{chars_of, string_from_chars, sub_chars};
use crate::timestamp::Timestamp;
use crate::{lyric_view, lyrics_view, tag_view, Lyric, TimeTag};

/// Executable [`word_end`].
fn word_end_exec(s: &[char], i: usize) -> (r: usize)
    requires
        i <= s@.len(),
    ensures
        r == word_end(s@, i as int),
        i <= r <= s@.len(),
{
    let n = s.len();
    let mut k: usize = i;
    while k < n && s[k] != '<' && s[k] != ' ' && s[k] != '\n'
        invariant
            n == s@.len(),
            i <= k <= n,
            word_end(s@, k as int) == word_end(s@, i as int),
        decreases n - k,
    {
        k = k + 1;
    }
    k
}

/// Executable [`word_tag_at`].
fn word_tag_at_exec(s: &[char], p: usize) -> (r: Option<(usize, usize, usize)>)
    requires
        p <= s@.len(),
    ensures
        match word_tag_at(s@, p as int) {
            Some(f) => r == Some((f.0 as usize, f.1 as usize, f.2 as usize)),
            None => r is None,
        },
        r matches Some(f) ==> fields_fit(s@, p + 1, (f.0 as int, f.1 as int, f.2 as int)) && p
            + f.0 + f.1 + f.2 + 5 <= s@.len(),
{
    let n = s.len();
    if p < n && s[p] == '<' {
        match time_at_exec(s, p + 1, Some('>')) {
            Some((a, b, c)) => {
                let tl = a + b + c + 2;
                if n - p >= tl + 3 && s[p + tl + 2] == ' ' {
                    Some((a, b, c))
                } else {
                    None
                }
            },
            None => None,
        }
    } else {
        None
    }
}

/// Executable [`line_time`].
fn line_time_exec(line: &[char]) -> (r: Option<(usize, usize, usize)>)
    ensures
        match line_time(line@) {
            Some(f) => r == Some((f.0 as usize, f.1 as usize, f.2 as usize)),
            None => r is None,
        },
        r matches Some(f) ==> fields_fit(line@, 1, (f.0 as int, f.1 as int, f.2 as int)),
{
    if line.len() > 0 && line[0] == '[' {
        time_at_exec(line, 1, Some(']'))
    } else {
        None
    }
}

/// Whether the time with fields `(a, b, c)` at `p` is written in ASCII digits.
fn time_is_ascii_exec(s: &[char], p: usize, a: usize, b: usize, c: usize) -> (r: bool)
    requires
        fields_fit(s@, p as int, (a as int, b as int, c as int)),
    ensures
        r == time_is_ascii(s@, p as int, (a as int, b as int, c as int)),
{
    let ghost f = (a as int, b as int, c as int);
    let _n = s.len();
    let end = p + a + b + c + 2;
    let colon = p + a;
    let dot = p + a + b + 1;
    let mut k: usize = p;
    while k < end
        invariant
            fields_fit(s@, p as int, f),
            end == p + time_len(f),
            p <= k <= end,
            f == (a as int, b as int, c as int),
            colon == p + a,
            dot == p + a + b + 1,
            forall|j: int|
                p <= j < k && j != p + a && j != p + a + b + 1 ==> is_ascii_digit(
                    #[trigger] s@[j],
                ),
        decreases end - k,
    {
        if k != colon && k != dot && !(s[k] >= '0' && s[k] <= '9') {
            proof {
                assert(!is_ascii_digit(s@[k as int]));
                if k < colon {
                    assert(!ascii_digits(s@, p as int, p + f.0));
                } else if k < dot {
                    assert(!ascii_digits(s@, p + f.0 + 1, p + f.0 + 1 + f.1));
                } else {
                    assert(!ascii_digits(s@, p + f.0 + f.1 + 2, p + time_len(f)));
                }
            }
            return false;
        }
        k = k + 1;
    }
    true
}

/// Whether `s` holds a word tag anywhere.
fn has_word_tag_exec(s: &[char]) -> (r: bool)
    ensures
        r == has_word_tag(s@),
{
    let n = s.len();
    let mut p: usize = 0;
    while p < n
        invariant
            n == s@.len(),
            p <= n,
            forall|q: int| 0 <= q < p ==> #[trigger] word_tag_at(s@, q) is None,
        decreases n - p,
    {
        if word_tag_at_exec(s, p).is_some() {
            assert(word_tag_at(s@, p as int) is Some);
            return true;
        }
        p = p + 1;
    }
    assert forall|q: int| #[trigger] word_tag_at(s@, q) is None by {
        if 0 <= q < n {
        }
    }
    false
}

/// A single space as a string.
fn space() -> (r: String)
    ensures
        r@ == seq![' '],
{
    let mut v: Vec<char> = Vec::new();
    v.push(' ');
    assert(v@ =~= seq![' ']);
    string_from_chars(v.as_slice())
}

proof fn lemma_push_view(l: Lyric, l2: Lyric, t: TimeTag)
    requires
        l2@ == l@.push(t),
    ensures
        lyric_view(l2) == lyric_view(l).push(tag_view(t)),
{
    assert(lyric_view(l2) =~= lyric_view(l).push(tag_view(t)));
}

/// The word tag at `pos` whose time has fields `(a, b, c)`, with the position
/// where its word ends; `None` when its time is not written in ASCII digits.
fn read_word_tag(line: &[char], pos: usize, a: usize, b: usize, c: usize) -> (r: Option<
    (TimeTag, usize),
>)
    requires
        word_tag_at(line@, pos as int) == Some((a as int, b as int, c as int)),
        fields_fit(line@, pos + 1, (a as int, b as int, c as int)),
        pos + a + b + c + 5 <= line@.len(),
    ensures
        r is Some <==> time_is_ascii(line@, pos + 1, (a as int, b as int, c as int)),
        r matches Some((tag, we)) ==> {
            let f = (a as int, b as int, c as int);
            let ws = pos + time_len(f) + 3;
            &&& we == word_end(line@, ws)
            &&& pos < we <= line@.len()
            &&& tag_view(tag) == (time_value(line@, pos + 1, f), tag_text(
                line@.subrange(ws, we as int),
            ))
        },
{
    let _n = line.len();
    let ws = pos + a + b + c + 5;
    let we = word_end_exec(line, ws);
    if !time_is_ascii_exec(line, pos + 1, a, b, c) {
        return None;
    }
    let tt = time_value_exec(line, pos + 1, a, b, c);
    let word = if we == ws {
        space()
    } else {
        let w = sub_chars(line, ws, we);
        string_from_chars(w.as_slice())
    };
    Some(((tt, word), we))
}

/// Appends the word tags of `line` to `r`; `false` (with `r` left partly
/// extended) when one of their times is not written in ASCII digits.
fn push_word_tags(line: &[char], r: &mut Lyric) -> (ok: bool)
    ensures
        ok == word_tags_ascii(line@, 0),
        ok ==> lyric_view(*final(r)) == lyric_view(*old(r)) + word_tags(line@, 0),
{
    let n = line.len();
    let mut pos: usize = 0;
    let ghost r0 = *r;
    proof {
        assert(lyric_view(r0) + word_tags(line@, 0) =~= lyric_view(*r) + word_tags(line@, 0));
    }
    while pos < n
        invariant
            n == line@.len(),
            pos <= n,
            lyric_view(*r) + word_tags(line@, pos as int) == lyric_view(r0) + word_tags(line@, 0),
            word_tags_ascii(line@, 0) == word_tags_ascii(line@, pos as int),
        decreases n - pos,
    {
        proof {
            lemma_word_tags_step(line@, pos as int);
        }
        match word_tag_at_exec(line, pos) {
            Some((a2, b2, c2)) => {
                match read_word_tag(line, pos, a2, b2, c2) {
                    None => {
                        return false;
                    },
                    Some((tag, we)) => {
                        let ghost rp = *r;
                        let ghost tg = tag;
                        r.push_back(tag);
                        proof {
                            lemma_push_view(rp, *r, tg);
                            assert(lyric_view(rp) + word_tags(line@, pos as int) =~= lyric_view(*r)
                                + word_tags(line@, we as int));
                        }
                        pos = we;
                    },
                }
            },
            None => {
                pos = pos + 1;
            },
        }
    }
    proof {
        assert(lyric_view(*r) + word_tags(line@, pos as int) =~= lyric_view(*r));
    }
    true
}

/// The time tags of a line that opens with a time tag, or `None` when one of
/// the times it reads is not written in ASCII digits.
fn parse_line_checked(line: &[char], enhanced: bool) -> (r: Option<Lyric>)
    requires
        line_time(line@) is Some,
    ensures
        r is Some <==> line_is_ascii(line@, enhanced),
        r matches Some(l) ==> lyric_view(l) == parse_line(line@, enhanced),
{
    let n = line.len();
    let (a, b, c) = line_time_exec(line).unwrap();
    if !time_is_ascii_exec(line, 1, a, b, c) {
        return None;
    }
    let t = time_value_exec(line, 1, a, b, c);
    let mut r: Lyric = VecDeque::new();
    let tl = a + b + c + 2;
    if enhanced {
        let ghost r0 = r;
        let empty = String::new();
        let ghost e = empty;
        r.push_back((t, empty));
        proof {
            lemma_push_view(r0, r, (t, e));
            assert(lyric_view(r) =~= seq![(t, Seq::<char>::empty())]);
        }
        let ghost r1 = r;
        if !push_word_tags(line, &mut r) {
            return None;
        }
        proof {
            assert(parse_line(line@, true) =~= lyric_view(r1) + word_tags(line@, 0));
        }
    } else {
        let txt = sub_chars(line, tl + 2, n);
        let ghost r0 = r;
        let s = string_from_chars(txt.as_slice());
        r.push_back((t, s));
        proof {
            lemma_push_view(r0, r, (t, s));
            assert(lyric_view(r) =~= parse_line(line@, false));
        }
    }
    Some(r)
}

/// Lines completed before position `i` stay the same lines further on.
proof fn lemma_split_lines_prefix(s: Seq<char>, i: int, j: int)
    requires
        0 <= i <= j <= s.len(),
    ensures
        split_lines(s.take(j)).len() >= split_lines(s.take(i)).len() >= 1,
        forall|k: int|
            0 <= k < split_lines(s.take(i)).len() - 1 ==> #[trigger] split_lines(s.take(j))[k]
                == split_lines(s.take(i))[k],
    decreases j - i,
{
    lemma_split_lines_len(s.take(i));
    if i < j {
        lemma_split_lines_prefix(s, i, j - 1);
        assert(s.take(j).drop_last() =~= s.take(j - 1));
        lemma_split_lines_len(s.take(j - 1));
    }
}

proof fn lemma_split_lines_len(s: Seq<char>)
    ensures
        split_lines(s).len() >= 1,
    decreases s.len(),
{
    if s.len() > 0 {
        lemma_split_lines_len(s.drop_last());
    }
}

/// The lyrics of `text`, or `None` when one of the times it reads is not
/// written in ASCII digits.
fn parse_checked(text: &str) -> (r: Option<VecDeque<Lyric>>)
    ensures
        r is Some <==> lrc_is_ascii(text@),
        r matches Some(ls) ==> lyrics_view(ls) == parse_lrc(text@),
{
    let s = chars_of(text);
    let enhanced = has_word_tag_exec(s.as_slice());
    let n = s.len();
    let mut lyrics: VecDeque<Lyric> = VecDeque::new();
    let mut cur: Vec<char> = Vec::new();
    let ghost mut done: Seq<Seq<char>> = seq![];
    let mut i: usize = 0;
    proof {
        assert(s@.take(0) =~= Seq::<char>::empty());
        assert(lyrics_view(lyrics) =~= Seq::<Seq<(Timestamp, Seq<char>)>>::empty());
    }
    while i < n
        invariant
            n == s@.len(),
            s@ == text@,
            i <= n,
            enhanced == has_word_tag(s@),
            split_lines(s@.take(i as int)) == done.push(cur@),
            lyrics_view(lyrics) == parse_lines(done, enhanced),
            forall|k: int| 0 <= k < done.len() ==> line_is_ascii(#[trigger] done[k], enhanced),
        decreases n - i,
    {
        let ghost s_i = s@.take(i as int);
        proof {
            assert(s@.take(i + 1).drop_last() =~= s_i);
        }
        if s[i] == '\n' {
            let ghost done2 = done.push(cur@);
            proof {
                lemma_split_lines_prefix(s@, i + 1, n as int);
                assert(s@.take(n as int) =~= s@);
                assert(split_lines(s@.take(i + 1)) == done2.push(Seq::<char>::empty()));
                assert(split_lines(s@)[done.len() as int] == cur@);
                assert(done2.drop_last() =~= done);
            }
            if line_time_exec(cur.as_slice()).is_some() {
                match parse_line_checked(cur.as_slice(), enhanced) {
                    Some(l) => {
                        let ghost lp = lyrics;
                        lyrics.push_back(l);
                        proof {
                            assert(lyrics_view(lyrics) =~= lyrics_view(lp).push(lyric_view(l)));
                        }
                    },
                    None => {
                        proof {
                            assert(!line_is_ascii(split_lines(s@)[done.len() as int], enhanced));
                        }
                        return None;
                    },
                }
            }
            proof {
                done = done2;
            }
            cur = Vec::new();
        } else {
            cur.push(s[i]);
            proof {
                assert(split_lines(s@.take(i + 1)) =~= done.push(cur@));
            }
        }
        i = i + 1;
    }
    proof {
        assert(s@.take(n as int) =~= s@);
        assert(done.push(cur@).drop_last() =~= done);
    }
    if line_time_exec(cur.as_slice()).is_some() {
        match parse_line_checked(cur.as_slice(), enhanced) {
            Some(l) => {
                let ghost lp = lyrics;
                lyrics.push_back(l);
                proof {
                    assert(lyrics_view(lyrics) =~= lyrics_view(lp).push(lyric_view(l)));
                }
            },
            None => {
                proof {
                    assert(!line_is_ascii(split_lines(s@)[done.len() as int], enhanced));
                }
                return None;
            },
        }
    }
    proof {
        let ls = split_lines(s@);
        assert forall|k: int| 0 <= k < ls.len() implies line_is_ascii(
            #[trigger] ls[k],
            enhanced,
        ) by {
            if k < done.len() {
                assert(ls[k] == done[k]);
            } else {
                assert(ls[k] == cur@);
            }
        }
    }
    Some(lyrics)
}

/// Parses the text of an LRC file into its lyric lines: one per line that
/// opens with a `[mm:ss.xx]` tag, in file order. When a word tag
/// `<mm:ss.xx> word` occurs anywhere in the text, each line holds its line tag
/// with empty text followed by its word tags (an empty word becomes a single
/// space); otherwise each line holds its line tag carrying the rest of the line.
/// Every time read must be written in ASCII digits (see [`lrc_times_are_ascii`]).
pub fn parse_lrc_file(text: &str) -> (r: Option<VecDeque<Lyric>>)
    requires
        lrc_is_ascii(text@),
    ensures
        r matches Some(ls) && lyrics_view(ls) == parse_lrc(text@),
{
    parse_checked(text)
}

/// Whether every time that [`parse_lrc_file`] would read in `text` is written
/// in ASCII digits.
pub fn lrc_times_are_ascii(text: &str) -> (r: bool)
    ensures
        r == lrc_is_ascii(text@),
{
    parse_checked(text).is_some()
}

/// Reads the leftmost time `mm:ss.xx` (or `mm:ss.xxx`) in `timestamp`: one or
/// two digits of minutes, one or two of seconds, two digits of centiseconds
/// or three of milliseconds. The time must exist and be written in ASCII digits.
pub fn parse_timestamp(timestamp: &str) -> (r: Timestamp)
    requires
        has_ascii_time(timestamp@),
    ensures
        r == first_time_value(timestamp@),
        r.wf(),
{
    let s = chars_of(timestamp);
    let n = s.len();
    let mut p: usize = 0;
    while p < n
        invariant
            n == s@.len(),
            s@ == timestamp@,
            p <= n,
            time_search(s@, 0) == time_search(s@, p as int),
            has_ascii_time(s@),
        decreases n - p,
    {
        if let Some((a, b, c)) = time_at_exec(s.as_slice(), p, None) {
            return time_value_exec(s.as_slice(), p, a, b, c);
        }
        p = p + 1;
    }
    proof {
        assert(time_search(s@, n as int) is None);
    }
    Timestamp::zero()
}

} // verus!
