//! The JSON view of the lyrics around the line being sung: the lines before
//! and after it, and the current line split at the word being sung.
use std::collections::VecDeque;
use vstd::prelude::*;

verus! {

use crate::text::{chars_are_blank, chars_of, is_blank, string_from_chars, trim, trim_chars};
use crate::timestamp::Timestamp;
use crate::{lyric_view, lyrics_view, Lyric};

/// The fields of one JSON message; serialised in this field order.
#[derive(Debug)]
pub struct JsonLyrics {
    pub prev_lines: Vec<String>,
    pub next_lines: Vec<String>,
    pub prev_words: String,
    pub curr_word: String,
    pub next_words: String,
    pub cover: String,
}

/// Strings as plain character sequences.
pub open spec fn strings_view(v: Vec<String>) -> Seq<Seq<char>> {
    v@.map_values(|s: String| s@)
}

/// The texts of a line's time tags.
pub open spec fn words(l: Seq<(Timestamp, Seq<char>)>) -> Seq<Seq<char>> {
    l.map_values(|t: (Timestamp, Seq<char>)| t.1)
}

/// The words that are not blank, each followed by one space.
pub open spec fn joined(ws: Seq<Seq<char>>) -> Seq<char>
    decreases ws.len(),
{
    if ws.len() == 0 {
        Seq::empty()
    } else {
        joined(ws.drop_last()) + (if is_blank(ws.last()) {
            Seq::empty()
        } else {
            ws.last().push(' ')
        })
    }
}

/// A whole line as one text: its non-blank words separated by single spaces.
pub open spec fn line_text(l: Seq<(Timestamp, Seq<char>)>) -> Seq<char> {
    trim(joined(words(l)))
}

/// Of the window `line_num - step ..= line_num + step`, the indices below
/// `upto` that go before the current line: those before the current line and
/// before the end of the lyrics; an empty text for an index before the first line.
pub open spec fn prev_lines_upto(
    ls: Seq<Seq<(Timestamp, Seq<char>)>>,
    line_num: int,
    step: int,
    upto: int,
) -> Seq<Seq<char>> {
    let lo = line_num - step;
    let hi = if upto < line_num && upto < ls.len() {
        upto
    } else if line_num < ls.len() {
        line_num
    } else {
        ls.len() as int
    };
    Seq::new(
        if hi > lo {
            (hi - lo) as nat
        } else {
            0
        },
        |k: int|
            if lo + k < 0 {
                Seq::<char>::empty()
            } else {
                line_text(ls[lo + k])
            },
    )
}

/// Of the window `line_num - step ..= line_num + step`, the indices below
/// `upto` that go after the current line: those past the current line or past
/// the end of the lyrics; an empty text for an index past the last line.
pub open spec fn next_lines_upto(
    ls: Seq<Seq<(Timestamp, Seq<char>)>>,
    line_num: int,
    step: int,
    upto: int,
) -> Seq<Seq<char>> {
    let lo = line_num - step;
    let m = if ls.len() < line_num + 1 {
        ls.len() as int
    } else {
        line_num + 1
    };
    let from = if lo > m {
        lo
    } else {
        m
    };
    Seq::new(
        if upto > from {
            (upto - from) as nat
        } else {
            0
        },
        |k: int|
            if from + k >= ls.len() {
                Seq::<char>::empty()
            } else {
                line_text(ls[from + k])
            },
    )
}

/// The lines before the current one, oldest first.
pub open spec fn spec_prev_lines(
    ls: Seq<Seq<(Timestamp, Seq<char>)>>,
    line_num: int,
    step: int,
) -> Seq<Seq<char>> {
    prev_lines_upto(ls, line_num, step, line_num + step + 1)
}

/// The lines after the current one, in order.
pub open spec fn spec_next_lines(
    ls: Seq<Seq<(Timestamp, Seq<char>)>>,
    line_num: int,
    step: int,
) -> Seq<Seq<char>> {
    next_lines_upto(ls, line_num, step, line_num + step + 1)
}

/// 1 when the word at `word_num` is blank and the word after it is not: the
/// next word then counts as the current one.
pub open spec fn overhang(l: Seq<(Timestamp, Seq<char>)>, word_num: int) -> int {
    if word_num < l.len() && is_blank(l[word_num].1) && word_num + 1 < l.len() && !is_blank(
        l[word_num + 1].1,
    ) {
        1
    } else {
        0
    }
}

/// The word being sung: the word at `word_num`, or the one after it when that
/// one is blank, or nothing.
pub open spec fn spec_curr_word(l: Seq<(Timestamp, Seq<char>)>, word_num: int) -> Seq<char> {
    if word_num < l.len() {
        if !is_blank(l[word_num].1) {
            l[word_num].1
        } else if word_num + 1 < l.len() && !is_blank(l[word_num + 1].1) {
            l[word_num + 1].1
        } else {
            Seq::empty()
        }
    } else {
        Seq::empty()
    }
}

/// The words before the current one.
pub open spec fn spec_prev_words(l: Seq<(Timestamp, Seq<char>)>, word_num: int) -> Seq<char> {
    joined(words(l).take(word_num))
}

/// A space followed by the words after the current one.
pub open spec fn spec_next_words(l: Seq<(Timestamp, Seq<char>)>, word_num: int) -> Seq<char> {
    let start = word_num + 1 + overhang(l, word_num);
    let from = if start < l.len() {
        start
    } else {
        l.len() as int
    };
    seq![' '] + joined(words(l).subrange(from, l.len() as int))
}

/// The words before the current one, the current word and the words after
/// it: split at `word_num` for a line of several time tags, the whole text as
/// the current word for a line of one, and all empty when there is no such line.
pub open spec fn current_fields(
    ls: Seq<Seq<(Timestamp, Seq<char>)>>,
    line_num: int,
    word_num: int,
) -> (Seq<char>, Seq<char>, Seq<char>) {
    if line_num < ls.len() && ls[line_num].len() > 1 {
        let l = ls[line_num];
        (spec_prev_words(l, word_num), spec_curr_word(l, word_num), spec_next_words(l, word_num))
    } else if line_num < ls.len() {
        (Seq::empty(), ls[line_num][0].1, Seq::empty())
    } else {
        (Seq::empty(), Seq::empty(), Seq::empty())
    }
}

/// What `json_convert` needs of its arguments: the window stays within `u32`,
/// and a current line that exists holds a time tag, and, when it holds several,
/// at least `word_num` of them.
pub open spec fn json_args_ok(
    ls: Seq<Seq<(Timestamp, Seq<char>)>>,
    line_num: int,
    word_num: int,
    step: int,
) -> bool {
    &&& line_num + step + 1 <= u32::MAX
    &&& line_num < ls.len() ==> {
        let l = ls[line_num];
        &&& l.len() >= 1
        &&& l.len() > 1 ==> word_num <= l.len() && word_num + 1 + overhang(l, word_num)
            <= u32::MAX
    }
}

/// The JSON message for `line_num`, `word_num` and `step` over lyrics `ls`.
pub open spec fn json_fields_ok(
    r: JsonLyrics,
    ls: Seq<Seq<(Timestamp, Seq<char>)>>,
    line_num: int,
    word_num: int,
    step: int,
    cover: Seq<char>,
) -> bool {
    &&& strings_view(r.prev_lines) == spec_prev_lines(ls, line_num, step)
    &&& strings_view(r.next_lines) == spec_next_lines(ls, line_num, step)
    &&& r.cover@ == cover
    &&& (r.prev_words@, r.curr_word@, r.next_words@) == current_fields(ls, line_num, word_num)
}

proof fn lemma_prev_lines_step(
    ls: Seq<Seq<(Timestamp, Seq<char>)>>,
    line_num: int,
    step: int,
    i: int,
)
    requires
        0 <= line_num,
        0 <= step,
        line_num - step <= i,
    ensures
        i < line_num && i < ls.len() ==> prev_lines_upto(ls, line_num, step, i + 1)
            == prev_lines_upto(ls, line_num, step, i).push(
            if i < 0 {
                Seq::<char>::empty()
            } else {
                line_text(ls[i])
            },
        ),
        !(i < line_num && i < ls.len()) ==> prev_lines_upto(ls, line_num, step, i + 1)
            == prev_lines_upto(ls, line_num, step, i),
{
    let a = prev_lines_upto(ls, line_num, step, i);
    let b = prev_lines_upto(ls, line_num, step, i + 1);
    if i < line_num && i < ls.len() {
        assert(a.len() == i - (line_num - step));
        assert(b =~= a.push(
            if i < 0 {
                Seq::<char>::empty()
            } else {
                line_text(ls[i])
            },
        ));
    } else {
        assert(b =~= a);
    }
}

proof fn lemma_next_lines_step(
    ls: Seq<Seq<(Timestamp, Seq<char>)>>,
    line_num: int,
    step: int,
    i: int,
)
    requires
        0 <= line_num,
        0 <= step,
        line_num - step <= i,
    ensures
        i >= ls.len() || i > line_num ==> next_lines_upto(ls, line_num, step, i + 1)
            == next_lines_upto(ls, line_num, step, i).push(
            if i >= ls.len() {
                Seq::<char>::empty()
            } else {
                line_text(ls[i])
            },
        ),
        !(i >= ls.len() || i > line_num) ==> next_lines_upto(ls, line_num, step, i + 1)
            == next_lines_upto(ls, line_num, step, i),
{
    let a = next_lines_upto(ls, line_num, step, i);
    let b = next_lines_upto(ls, line_num, step, i + 1);
    if i >= ls.len() || i > line_num {
        assert(b =~= a.push(
            if i >= ls.len() {
                Seq::<char>::empty()
            } else {
                line_text(ls[i])
            },
        ));
    } else {
        assert(b =~= a);
    }
}

proof fn lemma_strings_push(v: Vec<String>, w: Vec<String>, s: String)
    requires
        w@ == v@.push(s),
    ensures
        strings_view(w) == strings_view(v).push(s@),
{
    assert(strings_view(w) =~= strings_view(v).push(s@));
}

/// Appends `w` to `acc`.
fn push_all(acc: &mut Vec<char>, w: &[char])
    ensures
        final(acc)@ == old(acc)@ + w@,
{
    let n = w.len();
    let mut k: usize = 0;
    while k < n
        invariant
            n == w@.len(),
            k <= n,
            acc@ == old(acc)@ + w@.take(k as int),
        decreases n - k,
    {
        acc.push(w[k]);
        k = k + 1;
        assert(acc@ =~= old(acc)@ + w@.take(k as int));
    }
    assert(w@.take(n as int) =~= w@);
}

/// The non-blank words of `l[from..to]`, each followed by a space.
fn join_words(l: &Lyric, from: usize, to: usize) -> (r: Vec<char>)
    requires
        from <= to <= l@.len(),
    ensures
        r@ == joined(words(lyric_view(*l)).subrange(from as int, to as int)),
{
    let ghost ws = words(lyric_view(*l));
    let mut acc: Vec<char> = Vec::new();
    let mut j: usize = from;
    proof {
        assert(ws.subrange(from as int, from as int) =~= Seq::<Seq<char>>::empty());
    }
    while j < to
        invariant
            from <= j <= to <= l@.len(),
            ws == words(lyric_view(*l)),
            acc@ == joined(ws.subrange(from as int, j as int)),
        decreases to - j,
    {
        let w = chars_of(l[j].1.as_str());
        proof {
            assert(ws[j as int] == l@[j as int].1@);
            assert(ws.subrange(from as int, j + 1).drop_last() =~= ws.subrange(
                from as int,
                j as int,
            ));
        }
        if !chars_are_blank(w.as_slice()) {
            push_all(&mut acc, w.as_slice());
            acc.push(' ');
        }
        j = j + 1;
        proof {
            assert(acc@ =~= joined(ws.subrange(from as int, j as int)));
        }
    }
    acc
}

/// Whether the text of `l[j]` is blank.
fn tag_is_blank(l: &Lyric, j: usize) -> (r: bool)
    requires
        j < l@.len(),
    ensures
        r == is_blank(lyric_view(*l)[j as int].1),
{
    let w = chars_of(l[j].1.as_str());
    chars_are_blank(w.as_slice())
}

/// Extracts the lines around `line_num` (`step` before and after) and splits
/// line `line_num` at word `word_num` into the words before it, the word
/// itself and the words after it; `cover` is passed through.
pub fn json_convert(lyrics: &VecDeque<Lyric>, line_num: u32, word_num: u32, step: u32, cover: String) -> (r: JsonLyrics)
    requires
        json_args_ok(lyrics_view(*lyrics), line_num as int, word_num as int, step as int),
    ensures
        json_fields_ok(
            r,
            lyrics_view(*lyrics),
            line_num as int,
            word_num as int,
            step as int,
            cover@,
        ),
{
    let ghost ls = lyrics_view(*lyrics);
    let mut json_prev_lines: Vec<String> = Vec::new();
    let mut json_next_lines: Vec<String> = Vec::new();
    let mut json_curr_word: Vec<char> = Vec::new();
    let mut json_prev_words: Vec<char> = Vec::new();
    let mut json_next_words: Vec<char> = Vec::new();
    let len = lyrics.len();
    let lo: i64 = line_num as i64 - step as i64;
    let end: i64 = (line_num + step + 1) as i64;
    let mut i: i64 = lo;
    while i < end
        invariant
            ls == lyrics_view(*lyrics),
            len == ls.len(),
            json_args_ok(ls, line_num as int, word_num as int, step as int),
            lo == line_num - step,
            end == line_num + step + 1,
            lo <= i <= end,
            strings_view(json_prev_lines) == prev_lines_upto(
                ls,
                line_num as int,
                step as int,
                i as int,
            ),
            strings_view(json_next_lines) == next_lines_upto(
                ls,
                line_num as int,
                step as int,
                i as int,
            ),
            (json_prev_words@, json_curr_word@, json_next_words@) == (if i > line_num {
                current_fields(ls, line_num as int, word_num as int)
            } else {
                (Seq::<char>::empty(), Seq::<char>::empty(), Seq::<char>::empty())
            }),
        decreases end - i,
    {
        let ghost pv = json_prev_lines;
        let ghost nv = json_next_lines;
        if i < 0 {
            let e = String::new();
            json_prev_lines.push(e);
            proof {
                lemma_strings_push(pv, json_prev_lines, e);
                lemma_prev_lines_step(ls, line_num as int, step as int, i as int);
                lemma_next_lines_step(ls, line_num as int, step as int, i as int);
            }
            i = i + 1;
            continue;
        } else if i as u64 >= len as u64 {
            let e = String::new();
            json_next_lines.push(e);
            proof {
                lemma_strings_push(nv, json_next_lines, e);
                lemma_prev_lines_step(ls, line_num as int, step as int, i as int);
                lemma_next_lines_step(ls, line_num as int, step as int, i as int);
            }
            i = i + 1;
            continue;
        }
        let iu = i as u32;
        let line = &lyrics[iu as usize];
        if iu != line_num {
            let joined_line = join_words(line, 0, line.len());
            let t = trim_chars(joined_line.as_slice());
            let s = string_from_chars(t.as_slice());
            proof {
                assert(ls[i as int] == lyric_view(*line));
                assert(words(lyric_view(*line)).subrange(0, line@.len() as int) =~= words(
                    lyric_view(*line),
                ));
                assert(s@ == line_text(ls[i as int]));
            }
            if iu < line_num {
                json_prev_lines.push(s);
                proof {
                    lemma_strings_push(pv, json_prev_lines, s);
                }
            } else {
                json_next_lines.push(s);
                proof {
                    lemma_strings_push(nv, json_next_lines, s);
                }
            }
            proof {
                lemma_prev_lines_step(ls, line_num as int, step as int, i as int);
                lemma_next_lines_step(ls, line_num as int, step as int, i as int);
            }
        } else {
            let n = line.len();
            if n > 1 {
                let wn = word_num as usize;
                json_prev_words = join_words(line, 0, wn);
                let mut overhang: usize = 0;
                if wn < n {
                    if !tag_is_blank(line, wn) {
                        json_curr_word = chars_of(line[wn].1.as_str());
                    } else if wn + 1 < n && !tag_is_blank(line, wn + 1) {
                        overhang = 1;
                        json_curr_word = chars_of(line[wn + 1].1.as_str());
                    }
                }
                json_next_words.push(' ');
                let start = wn + 1 + overhang;
                if start < n {
                    let mut rest = join_words(line, start, n);
                    json_next_words.append(&mut rest);
                }
            } else {
                json_curr_word = chars_of(line[0].1.as_str());
            }
            proof {
                assert(ls[i as int] == lyric_view(*line));
                lemma_prev_lines_step(ls, line_num as int, step as int, i as int);
                lemma_next_lines_step(ls, line_num as int, step as int, i as int);
            }
        }
        i = i + 1;
    }
    JsonLyrics {
        prev_lines: json_prev_lines,
        next_lines: json_next_lines,
        prev_words: string_from_chars(json_prev_words.as_slice()),
        curr_word: string_from_chars(json_curr_word.as_slice()),
        next_words: string_from_chars(json_next_words.as_slice()),
        cover,
    }
}

} // verus!

verus! {

/// Whether `json_convert(lyrics, line_num, word_num, step, _)` may be called:
/// exactly [`json_args_ok`].
pub fn json_args_fit(lyrics: &VecDeque<Lyric>, line_num: u32, word_num: u32, step: u32) -> (r: bool)
    ensures
        r == json_args_ok(lyrics_view(*lyrics), line_num as int, word_num as int, step as int),
{
    let ghost ls = lyrics_view(*lyrics);
    if line_num as u64 + step as u64 + 1 > u32::MAX as u64 {
        return false;
    }
    if (line_num as usize) < lyrics.len() {
        let line = &lyrics[line_num as usize];
        proof {
            assert(ls[line_num as int] == lyric_view(*line));
        }
        let n = line.len();
        if n < 1 {
            return false;
        }
        if n > 1 {
            let wn = word_num as usize;
            if wn > n {
                return false;
            }
            let oh: u64 = if wn < n && tag_is_blank(line, wn) && wn + 1 < n && !tag_is_blank(
                line,
                wn + 1,
            ) {
                1
            } else {
                0
            };
            if word_num as u64 + 1 + oh > u32::MAX as u64 {
                return false;
            }
        }
    }
    true
}

} // verus!

verus! {

/// Besides the current line the window holds `2 * step` lines: `step` before
/// and `step` after when the current line exists; past the end of the lyrics
/// the current index counts among the lines after, `2 * step + 1` in all.
pub proof fn lemma_window_size(ls: Seq<Seq<(Timestamp, Seq<char>)>>, line_num: int, step: int)
    requires
        0 <= line_num,
        0 <= step,
    ensures
        line_num < ls.len() ==> spec_prev_lines(ls, line_num, step).len() == step
            && spec_next_lines(ls, line_num, step).len() == step,
        line_num >= ls.len() ==> spec_prev_lines(ls, line_num, step).len() + spec_next_lines(
            ls,
            line_num,
            step,
        ).len() == 2 * step + 1,
{
}

/// The non-blank texts of a line's tags, each followed by one space, in order.
pub open spec fn spaced_words(l: Seq<(Timestamp, Seq<char>)>) -> Seq<char> {
    l.filter(|t: (Timestamp, Seq<char>)| !is_blank(t.1)).map_values(
        |t: (Timestamp, Seq<char>)| t.1.push(' '),
    ).flatten()
}

proof fn lemma_joined_is_spaced_words(l: Seq<(Timestamp, Seq<char>)>)
    ensures
        joined(words(l)) == spaced_words(l),
    decreases l.len(),
{
    reveal_with_fuel(Seq::filter, 1);
    let nb = |t: (Timestamp, Seq<char>)| !is_blank(t.1);
    let ps = |t: (Timestamp, Seq<char>)| t.1.push(' ');
    let f = l.filter(nb).map_values(ps);
    f.lemma_flatten_and_flatten_alt_are_equivalent();
    if l.len() > 0 {
        let d = l.drop_last();
        lemma_joined_is_spaced_words(d);
        let fd = d.filter(nb).map_values(ps);
        fd.lemma_flatten_and_flatten_alt_are_equivalent();
        assert(words(l).drop_last() =~= words(d));
        assert(words(l).last() == l.last().1);
        if nb(l.last()) {
            assert(l.filter(nb) == d.filter(nb).push(l.last()));
            assert(f =~= fd.push(ps(l.last())));
            assert(f.drop_last() =~= fd);
        } else {
            assert(l.filter(nb) == d.filter(nb));
            assert(f =~= fd);
        }
    } else {
        assert(l.filter(nb) =~= l);
        assert(f =~= Seq::<Seq<char>>::empty());
    }
}

/// Each line around the current one is shown as its whole text: the
/// non-blank texts of all its tags, each followed by a space, trimmed; an
/// index before the first line or past the last shows as empty. The lines
/// before cover the indices from `line_num - step` on, the lines after those
/// from the first index past the current line (or past the last line) on.
pub proof fn lemma_window_line_texts(
    ls: Seq<Seq<(Timestamp, Seq<char>)>>,
    line_num: int,
    step: int,
)
    requires
        0 <= line_num,
        0 <= step,
    ensures
        forall|k: int|
            0 <= k < spec_prev_lines(ls, line_num, step).len() ==> #[trigger] spec_prev_lines(
                ls,
                line_num,
                step,
            )[k] == (if line_num - step + k < 0 {
                Seq::<char>::empty()
            } else {
                trim(spaced_words(ls[line_num - step + k]))
            }),
        forall|k: int|
            0 <= k < spec_next_lines(ls, line_num, step).len() ==> {
                let i = if line_num - step > ls.len() || line_num - step > line_num + 1 {
                    line_num - step
                } else if ls.len() < line_num + 1 {
                    ls.len() as int
                } else {
                    line_num + 1
                } + k;
                #[trigger] spec_next_lines(ls, line_num, step)[k] == (if i >= ls.len() {
                    Seq::<char>::empty()
                } else {
                    trim(spaced_words(ls[i]))
                })
            },
{
    assert forall|i: int| 0 <= i < ls.len() implies line_text(#[trigger] ls[i]) == trim(
        spaced_words(ls[i]),
    ) by {
        lemma_joined_is_spaced_words(ls[i]);
    }
}

} // verus!
