//! The LRC grammar: what a time tag, a line time tag and a word time tag are,
//! and the values they denote.
use vstd::prelude::*;
use crate::timestamp::Timestamp;

verus! {

/// `c` is a decimal digit in the Unicode sense (general category `Nd`, Unicode 16),
/// the characters that `\d` stands for in the lyric grammar.
pub open spec fn is_digit(c: char) -> bool {
    let u = c as u32;
    ||| 0x30 <= u <= 0x39
    ||| 0x660 <= u <= 0x669
    ||| 0x6F0 <= u <= 0x6F9
    ||| 0x7C0 <= u <= 0x7C9
    ||| 0x966 <= u <= 0x96F
    ||| 0x9E6 <= u <= 0x9EF
    ||| 0xA66 <= u <= 0xA6F
    ||| 0xAE6 <= u <= 0xAEF
    ||| 0xB66 <= u <= 0xB6F
    ||| 0xBE6 <= u <= 0xBEF
    ||| 0xC66 <= u <= 0xC6F
    ||| 0xCE6 <= u <= 0xCEF
    ||| 0xD66 <= u <= 0xD6F
    ||| 0xDE6 <= u <= 0xDEF
    ||| 0xE50 <= u <= 0xE59
    ||| 0xED0 <= u <= 0xED9
    ||| 0xF20 <= u <= 0xF29
    ||| 0x1040 <= u <= 0x1049
    ||| 0x1090 <= u <= 0x1099
    ||| 0x17E0 <= u <= 0x17E9
    ||| 0x1810 <= u <= 0x1819
    ||| 0x1946 <= u <= 0x194F
    ||| 0x19D0 <= u <= 0x19D9
    ||| 0x1A80 <= u <= 0x1A89
    ||| 0x1A90 <= u <= 0x1A99
    ||| 0x1B50 <= u <= 0x1B59
    ||| 0x1BB0 <= u <= 0x1BB9
    ||| 0x1C40 <= u <= 0x1C49
    ||| 0x1C50 <= u <= 0x1C59
    ||| 0xA620 <= u <= 0xA629
    ||| 0xA8D0 <= u <= 0xA8D9
    ||| 0xA900 <= u <= 0xA909
    ||| 0xA9D0 <= u <= 0xA9D9
    ||| 0xA9F0 <= u <= 0xA9F9
    ||| 0xAA50 <= u <= 0xAA59
    ||| 0xABF0 <= u <= 0xABF9
    ||| 0xFF10 <= u <= 0xFF19
    ||| 0x104A0 <= u <= 0x104A9
    ||| 0x10D30 <= u <= 0x10D39
    ||| 0x10D40 <= u <= 0x10D49
    ||| 0x11066 <= u <= 0x1106F
    ||| 0x110F0 <= u <= 0x110F9
    ||| 0x11136 <= u <= 0x1113F
    ||| 0x111D0 <= u <= 0x111D9
    ||| 0x112F0 <= u <= 0x112F9
    ||| 0x11450 <= u <= 0x11459
    ||| 0x114D0 <= u <= 0x114D9
    ||| 0x11650 <= u <= 0x11659
    ||| 0x116C0 <= u <= 0x116C9
    ||| 0x116D0 <= u <= 0x116E3
    ||| 0x11730 <= u <= 0x11739
    ||| 0x118E0 <= u <= 0x118E9
    ||| 0x11950 <= u <= 0x11959
    ||| 0x11BF0 <= u <= 0x11BF9
    ||| 0x11C50 <= u <= 0x11C59
    ||| 0x11D50 <= u <= 0x11D59
    ||| 0x11DA0 <= u <= 0x11DA9
    ||| 0x11F50 <= u <= 0x11F59
    ||| 0x16130 <= u <= 0x16139
    ||| 0x16A60 <= u <= 0x16A69
    ||| 0x16AC0 <= u <= 0x16AC9
    ||| 0x16B50 <= u <= 0x16B59
    ||| 0x16D70 <= u <= 0x16D79
    ||| 0x1CCF0 <= u <= 0x1CCF9
    ||| 0x1D7CE <= u <= 0x1D7FF
    ||| 0x1E140 <= u <= 0x1E149
    ||| 0x1E2F0 <= u <= 0x1E2F9
    ||| 0x1E4F0 <= u <= 0x1E4F9
    ||| 0x1E5F1 <= u <= 0x1E5FA
    ||| 0x1E950 <= u <= 0x1E959
    ||| 0x1FBF0 <= u <= 0x1FBF9
}

/// Executable test for [`is_digit`].
pub fn char_is_digit(c: char) -> (r: bool)
    ensures
        r == is_digit(c),
{
    let u = c as u32;
    (0x30 <= u && u <= 0x39) ||
        (0x660 <= u && u <= 0x669) ||
        (0x6F0 <= u && u <= 0x6F9) ||
        (0x7C0 <= u && u <= 0x7C9) ||
        (0x966 <= u && u <= 0x96F) ||
        (0x9E6 <= u && u <= 0x9EF) ||
        (0xA66 <= u && u <= 0xA6F) ||
        (0xAE6 <= u && u <= 0xAEF) ||
        (0xB66 <= u && u <= 0xB6F) ||
        (0xBE6 <= u && u <= 0xBEF) ||
        (0xC66 <= u && u <= 0xC6F) ||
        (0xCE6 <= u && u <= 0xCEF) ||
        (0xD66 <= u && u <= 0xD6F) ||
        (0xDE6 <= u && u <= 0xDEF) ||
        (0xE50 <= u && u <= 0xE59) ||
        (0xED0 <= u && u <= 0xED9) ||
        (0xF20 <= u && u <= 0xF29) ||
        (0x1040 <= u && u <= 0x1049) ||
        (0x1090 <= u && u <= 0x1099) ||
        (0x17E0 <= u && u <= 0x17E9) ||
        (0x1810 <= u && u <= 0x1819) ||
        (0x1946 <= u && u <= 0x194F) ||
        (0x19D0 <= u && u <= 0x19D9) ||
        (0x1A80 <= u && u <= 0x1A89) ||
        (0x1A90 <= u && u <= 0x1A99) ||
        (0x1B50 <= u && u <= 0x1B59) ||
        (0x1BB0 <= u && u <= 0x1BB9) ||
        (0x1C40 <= u && u <= 0x1C49) ||
        (0x1C50 <= u && u <= 0x1C59) ||
        (0xA620 <= u && u <= 0xA629) ||
        (0xA8D0 <= u && u <= 0xA8D9) ||
        (0xA900 <= u && u <= 0xA909) ||
        (0xA9D0 <= u && u <= 0xA9D9) ||
        (0xA9F0 <= u && u <= 0xA9F9) ||
        (0xAA50 <= u && u <= 0xAA59) ||
        (0xABF0 <= u && u <= 0xABF9) ||
        (0xFF10 <= u && u <= 0xFF19) ||
        (0x104A0 <= u && u <= 0x104A9) ||
        (0x10D30 <= u && u <= 0x10D39) ||
        (0x10D40 <= u && u <= 0x10D49) ||
        (0x11066 <= u && u <= 0x1106F) ||
        (0x110F0 <= u && u <= 0x110F9) ||
        (0x11136 <= u && u <= 0x1113F) ||
        (0x111D0 <= u && u <= 0x111D9) ||
        (0x112F0 <= u && u <= 0x112F9) ||
        (0x11450 <= u && u <= 0x11459) ||
        (0x114D0 <= u && u <= 0x114D9) ||
        (0x11650 <= u && u <= 0x11659) ||
        (0x116C0 <= u && u <= 0x116C9) ||
        (0x116D0 <= u && u <= 0x116E3) ||
        (0x11730 <= u && u <= 0x11739) ||
        (0x118E0 <= u && u <= 0x118E9) ||
        (0x11950 <= u && u <= 0x11959) ||
        (0x11BF0 <= u && u <= 0x11BF9) ||
        (0x11C50 <= u && u <= 0x11C59) ||
        (0x11D50 <= u && u <= 0x11D59) ||
        (0x11DA0 <= u && u <= 0x11DA9) ||
        (0x11F50 <= u && u <= 0x11F59) ||
        (0x16130 <= u && u <= 0x16139) ||
        (0x16A60 <= u && u <= 0x16A69) ||
        (0x16AC0 <= u && u <= 0x16AC9) ||
        (0x16B50 <= u && u <= 0x16B59) ||
        (0x16D70 <= u && u <= 0x16D79) ||
        (0x1CCF0 <= u && u <= 0x1CCF9) ||
        (0x1D7CE <= u && u <= 0x1D7FF) ||
        (0x1E140 <= u && u <= 0x1E149) ||
        (0x1E2F0 <= u && u <= 0x1E2F9) ||
        (0x1E4F0 <= u && u <= 0x1E4F9) ||
        (0x1E5F1 <= u && u <= 0x1E5FA) ||
        (0x1E950 <= u && u <= 0x1E959) ||
        (0x1FBF0 <= u && u <= 0x1FBF9)
}

/// An ASCII digit `0` to `9`, the only digits that `u64::from_str` accepts.
pub open spec fn is_ascii_digit(c: char) -> bool {
    '0' <= c && c <= '9'
}

/// `s[i..j]` lies inside `s` and is made of digits.
pub open spec fn digits(s: Seq<char>, i: int, j: int) -> bool {
    0 <= i <= j <= s.len() && forall|k: int| i <= k < j ==> is_digit(#[trigger] s[k])
}

/// `s[i..j]` lies inside `s` and is made of ASCII digits.
pub open spec fn ascii_digits(s: Seq<char>, i: int, j: int) -> bool {
    0 <= i <= j <= s.len() && forall|k: int| i <= k < j ==> is_ascii_digit(#[trigger] s[k])
}

/// Length of the one- or two-digit field at `p` that `sep` follows
/// (`\d{1,2}` then `sep`, longest first), or 0 when there is none.
pub open spec fn field_len(s: Seq<char>, p: int, sep: char) -> int {
    if digits(s, p, p + 2) && p + 2 < s.len() && s[p + 2] == sep {
        2
    } else if digits(s, p, p + 1) && p + 1 < s.len() && s[p + 1] == sep {
        1
    } else {
        0
    }
}

/// Length of the two- or three-digit fraction at `q` (`\d{2,3}`, longest first):
/// with `Some(close)` it must be followed by `close`; with `None` nothing follows.
/// 0 when there is none.
pub open spec fn frac_len(s: Seq<char>, q: int, close: Option<char>) -> int {
    match close {
        Some(ch) => if digits(s, q, q + 3) && q + 3 < s.len() && s[q + 3] == ch {
            3
        } else if digits(s, q, q + 2) && q + 2 < s.len() && s[q + 2] == ch {
            2
        } else {
            0
        },
        None => if digits(s, q, q + 3) {
            3
        } else if digits(s, q, q + 2) {
            2
        } else {
            0
        },
    }
}

/// The time `\d{1,2}:\d{1,2}\.\d{2,3}` that starts at `p`, as the lengths
/// `(a, b, c)` of its minute, second and fraction fields; `close` as in [`frac_len`].
pub open spec fn time_at(s: Seq<char>, p: int, close: Option<char>) -> Option<(int, int, int)> {
    let a = field_len(s, p, ':');
    let b = field_len(s, p + a + 1, '.');
    let c = frac_len(s, p + a + b + 2, close);
    if a > 0 && b > 0 && c > 0 {
        Some((a, b, c))
    } else {
        None
    }
}

/// Field lengths `f` are those of a time (1 or 2, 1 or 2, 2 or 3 digits) that
/// starts at `p` and ends inside `s`.
pub open spec fn fields_fit(s: Seq<char>, p: int, f: (int, int, int)) -> bool {
    &&& 0 <= p
    &&& 1 <= f.0 <= 2
    &&& 1 <= f.1 <= 2
    &&& 2 <= f.2 <= 3
    &&& p + time_len(f) <= s.len()
}

/// A time found by [`time_at`] has fitting fields.
pub proof fn lemma_time_at_fits(s: Seq<char>, p: int, close: Option<char>)
    requires
        0 <= p,
        time_at(s, p, close) is Some,
    ensures
        fields_fit(s, p, time_at(s, p, close).unwrap()),
{
}

/// Number of characters of a time with field lengths `f`.
pub open spec fn time_len(f: (int, int, int)) -> int {
    f.0 + f.1 + f.2 + 2
}

/// The decimal number written by the ASCII digits `s[i..j]`.
pub open spec fn decimal(s: Seq<char>, i: int, j: int) -> int
    decreases j - i,
{
    if j <= i {
        0
    } else {
        decimal(s, i, j - 1) * 10 + (s[j - 1] as int - '0' as int)
    }
}

/// All three fields of the time at `p` are written in ASCII digits.
pub open spec fn time_is_ascii(s: Seq<char>, p: int, f: (int, int, int)) -> bool {
    &&& ascii_digits(s, p, p + f.0)
    &&& ascii_digits(s, p + f.0 + 1, p + f.0 + 1 + f.1)
    &&& ascii_digits(s, p + f.0 + f.1 + 2, p + time_len(f))
}

/// The offset that the time at `p` with fields `f` denotes: `mm:ss.xx` is
/// `60 * mm + ss` seconds and `xx` centiseconds, `mm:ss.xxx` has milliseconds.
pub open spec fn time_value(s: Seq<char>, p: int, f: (int, int, int)) -> Timestamp {
    let mm = decimal(s, p, p + f.0);
    let ss = decimal(s, p + f.0 + 1, p + f.0 + 1 + f.1);
    let xx = decimal(s, p + f.0 + f.1 + 2, p + time_len(f));
    Timestamp {
        secs: (mm * 60 + ss) as u64,
        nanos: (xx * (if f.2 == 3 { 1_000_000int } else { 10_000_000int })) as u32,
    }
}

/// The time tag `[time]` that opens a line (`^\[(time)\]`), as its field lengths.
pub open spec fn line_time(line: Seq<char>) -> Option<(int, int, int)> {
    if line.len() > 0 && line[0] == '[' {
        time_at(line, 1, Some(']'))
    } else {
        None
    }
}

/// A character that may appear in the word of a word tag: anything but `<`,
/// space and newline (`[^< \n]`).
pub open spec fn is_word_char(c: char) -> bool {
    c != '<' && c != ' ' && c != '\n'
}

/// End of the (longest) run of word characters that starts at `i`.
pub open spec fn word_end(s: Seq<char>, i: int) -> int
    decreases s.len() - i,
{
    if 0 <= i < s.len() && is_word_char(s[i]) {
        word_end(s, i + 1)
    } else {
        i
    }
}

/// A run of word characters does not end before it starts, nor after `s`.
pub proof fn lemma_word_end_bounds(s: Seq<char>, i: int)
    ensures
        word_end(s, i) >= i,
        0 <= i <= s.len() ==> word_end(s, i) <= s.len(),
        forall|k: int| i <= k < word_end(s, i) ==> is_word_char(#[trigger] s[k]),
        0 <= word_end(s, i) < s.len() ==> !is_word_char(s[word_end(s, i)]),
    decreases s.len() - i,
{
    if 0 <= i < s.len() && is_word_char(s[i]) {
        lemma_word_end_bounds(s, i + 1);
    }
}

/// The word tag `<time> word` (`<(time)> ([^< \n]*)`) that starts at `p`,
/// as the field lengths of its time.
pub open spec fn word_tag_at(s: Seq<char>, p: int) -> Option<(int, int, int)> {
    if 0 <= p < s.len() && s[p] == '<' {
        match time_at(s, p + 1, Some('>')) {
            Some(f) => if p + time_len(f) + 3 <= s.len() && s[p + time_len(f) + 2] == ' ' {
                Some(f)
            } else {
                None
            },
            None => None,
        }
    } else {
        None
    }
}

/// The text a word tag carries: its word, or a single space when the word is empty.
pub open spec fn tag_text(w: Seq<char>) -> Seq<char> {
    if w.len() == 0 {
        seq![' ']
    } else {
        w
    }
}

/// The word tags of `s` from `pos` on: each leftmost match, then the search
/// goes on where it ended, as `Regex::captures_iter` does.
pub open spec fn word_tags(s: Seq<char>, pos: int) -> Seq<(Timestamp, Seq<char>)>
    decreases s.len() - pos,
{
    if pos < 0 || pos >= s.len() {
        seq![]
    } else {
        match word_tag_at(s, pos) {
            Some(f) => {
                let ws = pos + time_len(f) + 3;
                let we = word_end(s, ws);
                proof {
                    lemma_word_end_bounds(s, ws);
                }
                seq![(time_value(s, pos + 1, f), tag_text(s.subrange(ws, we)))] + word_tags(s, we)
            },
            None => word_tags(s, pos + 1),
        }
    }
}

/// Every word tag of `s` from `pos` on has a time written in ASCII digits.
pub open spec fn word_tags_ascii(s: Seq<char>, pos: int) -> bool
    decreases s.len() - pos,
{
    if pos < 0 || pos >= s.len() {
        true
    } else {
        match word_tag_at(s, pos) {
            Some(f) => {
                let ws = pos + time_len(f) + 3;
                proof {
                    lemma_word_end_bounds(s, ws);
                }
                time_is_ascii(s, pos + 1, f) && word_tags_ascii(s, word_end(s, ws))
            },
            None => word_tags_ascii(s, pos + 1),
        }
    }
}

/// Unfolds [`word_tags`] and [`word_tags_ascii`] once at `pos`.
pub proof fn lemma_word_tags_step(s: Seq<char>, pos: int)
    requires
        0 <= pos < s.len(),
    ensures
        match word_tag_at(s, pos) {
            Some(f) => {
                let ws = pos + time_len(f) + 3;
                let we = word_end(s, ws);
                &&& word_tags(s, pos) == seq![
                    (time_value(s, pos + 1, f), tag_text(s.subrange(ws, we))),
                ] + word_tags(s, we)
                &&& word_tags_ascii(s, pos) == (time_is_ascii(s, pos + 1, f) && word_tags_ascii(
                    s,
                    we,
                ))
            },
            None => {
                &&& word_tags(s, pos) == word_tags(s, pos + 1)
                &&& word_tags_ascii(s, pos) == word_tags_ascii(s, pos + 1)
            },
        },
{
}

/// A word tag occurs somewhere in `s`: the file is in the enhanced (word-by-word) format.
pub open spec fn has_word_tag(s: Seq<char>) -> bool {
    exists|p: int| #[trigger] word_tag_at(s, p) is Some
}

/// The lines of `s`, cut at each `\n` (`str::split("\n")`: `k` newlines give `k + 1` lines).
pub open spec fn split_lines(s: Seq<char>) -> Seq<Seq<char>>
    decreases s.len(),
{
    if s.len() == 0 {
        seq![Seq::<char>::empty()]
    } else {
        let init = split_lines(s.drop_last());
        if s.last() == '\n' {
            init.push(Seq::<char>::empty())
        } else {
            init.update(init.len() - 1, init.last().push(s.last()))
        }
    }
}

/// The time tags of a line that opens with a time tag: in the enhanced format
/// the line tag with empty text followed by the word tags, otherwise the line
/// tag carrying the rest of the line.
pub open spec fn parse_line(line: Seq<char>, enhanced: bool) -> Seq<(Timestamp, Seq<char>)> {
    let f = line_time(line).unwrap();
    let t = time_value(line, 1, f);
    if enhanced {
        seq![(t, Seq::<char>::empty())] + word_tags(line, 0)
    } else {
        seq![(t, line.subrange(time_len(f) + 2, line.len() as int))]
    }
}

/// The times that parsing a line reads are written in ASCII digits.
pub open spec fn line_is_ascii(line: Seq<char>, enhanced: bool) -> bool {
    line_time(line) matches Some(f) ==> {
        &&& time_is_ascii(line, 1, f)
        &&& enhanced ==> word_tags_ascii(line, 0)
    }
}

/// The lyric lines of `ls`: one per line that opens with a time tag, in order.
pub open spec fn parse_lines(ls: Seq<Seq<char>>, enhanced: bool) -> Seq<
    Seq<(Timestamp, Seq<char>)>,
>
    decreases ls.len(),
{
    if ls.len() == 0 {
        seq![]
    } else {
        let init = parse_lines(ls.drop_last(), enhanced);
        if line_time(ls.last()) is Some {
            init.push(parse_line(ls.last(), enhanced))
        } else {
            init
        }
    }
}

/// The lyrics that an LRC text denotes.
pub open spec fn parse_lrc(s: Seq<char>) -> Seq<Seq<(Timestamp, Seq<char>)>> {
    parse_lines(split_lines(s), has_word_tag(s))
}

/// Every time that parsing `s` reads is written in ASCII digits.
pub open spec fn lrc_is_ascii(s: Seq<char>) -> bool {
    forall|i: int|
        0 <= i < split_lines(s).len() ==> line_is_ascii(
            #[trigger] split_lines(s)[i],
            has_word_tag(s),
        )
}

/// The first position at or after `pos` where a time (`\d{1,2}:\d{1,2}\.\d{2,3}`,
/// nothing required after it) starts.
pub open spec fn time_search(s: Seq<char>, pos: int) -> Option<int>
    decreases s.len() - pos,
{
    if pos < 0 || pos >= s.len() {
        None
    } else if time_at(s, pos, None) is Some {
        Some(pos)
    } else {
        time_search(s, pos + 1)
    }
}

/// Some time occurs in `s` and the leftmost one is written in ASCII digits.
pub open spec fn has_ascii_time(s: Seq<char>) -> bool {
    time_search(s, 0) matches Some(p) && time_is_ascii(s, p, time_at(s, p, None).unwrap())
}

/// The offset that the leftmost time in `s` denotes.
pub open spec fn first_time_value(s: Seq<char>) -> Timestamp {
    let p = time_search(s, 0).unwrap();
    time_value(s, p, time_at(s, p, None).unwrap())
}

/// Executable [`field_len`].
pub fn field_len_exec(s: &[char], p: usize, sep: char) -> (r: usize)
    requires
        p <= s@.len(),
    ensures
        r == field_len(s@, p as int, sep),
{
    let n = s.len();
    if n - p > 2 && char_is_digit(s[p]) && char_is_digit(s[p + 1]) && s[p + 2] == sep {
        2
    } else if n - p > 1 && char_is_digit(s[p]) && s[p + 1] == sep {
        1
    } else {
        proof {
            if digits(s@, p as int, p + 2) {
                assert(is_digit(s@[p as int]) && is_digit(s@[p + 1]));
            }
            if digits(s@, p as int, p + 1) {
                assert(is_digit(s@[p as int]));
            }
        }
        0
    }
}

/// Executable [`frac_len`].
pub fn frac_len_exec(s: &[char], q: usize, close: Option<char>) -> (r: usize)
    requires
        q <= s@.len(),
    ensures
        r == frac_len(s@, q as int, close),
{
    let n = s.len();
    let d3 = n - q >= 3 && char_is_digit(s[q]) && char_is_digit(s[q + 1]) && char_is_digit(
        s[q + 2],
    );
    let d2 = n - q >= 2 && char_is_digit(s[q]) && char_is_digit(s[q + 1]);
    proof {
        if digits(s@, q as int, q + 3) {
            assert(is_digit(s@[q as int]) && is_digit(s@[q + 1]) && is_digit(s@[q + 2]));
        }
        if digits(s@, q as int, q + 2) {
            assert(is_digit(s@[q as int]) && is_digit(s@[q + 1]));
        }
        assert(d3 == digits(s@, q as int, q + 3));
        assert(d2 == digits(s@, q as int, q + 2));
    }
    match close {
        Some(ch) => {
            if d3 && n - q > 3 && s[q + 3] == ch {
                3
            } else if d2 && n - q > 2 && s[q + 2] == ch {
                2
            } else {
                0
            }
        },
        None => {
            if d3 {
                3
            } else if d2 {
                2
            } else {
                0
            }
        },
    }
}

/// Executable [`time_at`].
pub fn time_at_exec(s: &[char], p: usize, close: Option<char>) -> (r: Option<(usize, usize, usize)>)
    requires
        p <= s@.len(),
    ensures
        match time_at(s@, p as int, close) {
            Some(f) => r == Some((f.0 as usize, f.1 as usize, f.2 as usize)),
            None => r is None,
        },
        r matches Some(f) ==> fields_fit(s@, p as int, (f.0 as int, f.1 as int, f.2 as int)),
{
    let n = s.len();
    let a = field_len_exec(s, p, ':');
    if a == 0 {
        return None;
    }
    let b = field_len_exec(s, p + a + 1, '.');
    if b == 0 {
        return None;
    }
    let c = frac_len_exec(s, p + a + b + 2, close);
    if c == 0 {
        return None;
    }
    Some((a, b, c))
}

/// Executable [`decimal`] for the ASCII digits `s[i..j]`, at most three of them.
fn decimal_exec(s: &[char], i: usize, j: usize) -> (r: u32)
    requires
        ascii_digits(s@, i as int, j as int),
        j - i <= 3,
    ensures
        r == decimal(s@, i as int, j as int),
        r < 1000,
        j - i <= 2 ==> r < 100,
{
    let mut v: u32 = 0;
    let mut k: usize = i;
    while k < j
        invariant
            ascii_digits(s@, i as int, j as int),
            j - i <= 3,
            i <= k <= j,
            v == decimal(s@, i as int, k as int),
            k - i == 0 ==> v == 0,
            k - i == 1 ==> v <= 9,
            k - i == 2 ==> v <= 99,
            k - i == 3 ==> v <= 999,
        decreases j - k,
    {
        assert(is_ascii_digit(s@[k as int]));
        v = v * 10 + (s[k] as u32 - '0' as u32);
        k = k + 1;
    }
    v
}

/// Executable [`time_value`].
pub fn time_value_exec(s: &[char], p: usize, a: usize, b: usize, c: usize) -> (r: Timestamp)
    requires
        fields_fit(s@, p as int, (a as int, b as int, c as int)),
        time_is_ascii(s@, p as int, (a as int, b as int, c as int)),
    ensures
        r == time_value(s@, p as int, (a as int, b as int, c as int)),
        r.wf(),
{
    let _n = s.len();
    let mm = decimal_exec(s, p, p + a);
    let ss = decimal_exec(s, p + a + 1, p + a + 1 + b);
    let xx = decimal_exec(s, p + a + b + 2, p + a + b + 2 + c);
    let scale: u32 = if c == 3 { 1_000_000 } else { 10_000_000 };
    assert(xx * scale < 1_000_000_000) by (nonlinear_arith)
        requires
            c == 3 ==> xx < 1000,
            c != 3 ==> xx < 100,
            scale == (if c == 3 { 1_000_000u32 } else { 10_000_000u32 }),
    ;
    proof {
        if c != 3 {
            assert(c == 2);
            assert(xx < 100);
        }
    }
    Timestamp::new(mm as u64 * 60 + ss as u64, xx * scale)
}

} // verus!
