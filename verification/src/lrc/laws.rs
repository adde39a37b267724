//! What holds of every parse: the shape of the lyric lines and the validity
//! of their times.
use vstd::prelude::*;

verus! {

use crate::lrc::grammar::{
    ascii_digits, decimal, fields_fit, is_ascii_digit, line_is_ascii, line_time, lrc_is_ascii,
    parse_line, parse_lines, parse_lrc, split_lines, tag_text, time_is_ascii, time_len,
    time_value, word_end, word_tag_at, word_tags, word_tags_ascii, lemma_time_at_fits,
    lemma_word_end_bounds, has_word_tag, lemma_word_tags_step, time_at, time_search,
    has_ascii_time, first_time_value, digits, is_word_char,
};
use crate::timestamp::Timestamp;

/// The parsed lines are the lines that open with a time tag, each parsed on its own.
pub proof fn lemma_parse_lines_is_filter_map(ls: Seq<Seq<char>>, enhanced: bool)
    ensures
        parse_lines(ls, enhanced) == ls.filter(|l: Seq<char>| line_time(l) is Some).map_values(
            |l: Seq<char>| parse_line(l, enhanced),
        ),
    decreases ls.len(),
{
    reveal_with_fuel(Seq::filter, 1);
    let pred = |l: Seq<char>| line_time(l) is Some;
    let f = |l: Seq<char>| parse_line(l, enhanced);
    if ls.len() > 0 {
        lemma_parse_lines_is_filter_map(ls.drop_last(), enhanced);
        if pred(ls.last()) {
            assert(ls.filter(pred) == ls.drop_last().filter(pred).push(ls.last()));
            assert(ls.filter(pred).map_values(f) =~= ls.drop_last().filter(pred).map_values(f).push(
                f(ls.last()),
            ));
        } else {
            assert(ls.filter(pred) == ls.drop_last().filter(pred));
        }
    } else {
        assert(ls.filter(pred) =~= ls);
        assert(ls.filter(pred).map_values(f) =~= Seq::<Seq<(Timestamp, Seq<char>)>>::empty());
    }
}

/// The text of a word tag: a single space (for an empty word), or a non-empty
/// word free of `<`, space and newline.
pub open spec fn word_text_ok(w: Seq<char>) -> bool {
    ||| w == seq![' ']
    ||| w.len() > 0 && forall|i: int| 0 <= i < w.len() ==> is_word_char(#[trigger] w[i])
}

/// Every word tag carries a text as [`word_text_ok`] describes, so a non-empty one.
pub proof fn lemma_word_tags_nonempty(s: Seq<char>, pos: int)
    ensures
        forall|k: int|
            0 <= k < word_tags(s, pos).len() ==> (#[trigger] word_tags(s, pos)[k]).1.len() > 0
                && word_text_ok(word_tags(s, pos)[k].1),
    decreases s.len() - pos,
{
    if 0 <= pos < s.len() {
        lemma_word_tags_step(s, pos);
        match word_tag_at(s, pos) {
            Some(f) => {
                let ws = pos + time_len(f) + 3;
                lemma_word_end_bounds(s, ws);
                let we = word_end(s, ws);
                lemma_word_tags_nonempty(s, we);
                let w = s.subrange(ws, we);
                assert(word_text_ok(tag_text(w))) by {
                    if w.len() > 0 {
                        assert forall|i: int| 0 <= i < w.len() implies is_word_char(#[trigger] w[i]) by {
                            assert(w[i] == s[ws + i]);
                        }
                    }
                }
                assert forall|k: int| 0 <= k < word_tags(s, pos).len() implies (#[trigger] word_tags(
                    s,
                    pos,
                )[k]).1.len() > 0 && word_text_ok(word_tags(s, pos)[k].1) by {
                    lemma_word_tags_step(s, pos);
                    if k > 0 {
                        assert(word_tags(s, pos)[k] == word_tags(s, we)[k - 1]);
                    }
                }
            },
            None => {
                lemma_word_tags_nonempty(s, pos + 1);
            },
        }
    }
}

/// Every parsed line holds at least one time tag, the line's own, first: in
/// the enhanced format with empty text and followed by word tags with
/// non-empty texts; otherwise alone.
pub proof fn lemma_parsed_line_shape(line: Seq<char>, enhanced: bool)
    requires
        line_time(line) is Some,
    ensures
        parse_line(line, enhanced).len() >= 1,
        parse_line(line, enhanced)[0].0 == time_value(line, 1, line_time(line).unwrap()),
        !enhanced ==> parse_line(line, enhanced).len() == 1,
        enhanced ==> parse_line(line, enhanced)[0].1.len() == 0,
        enhanced ==> forall|k: int|
            1 <= k < parse_line(line, enhanced).len() ==> (#[trigger] parse_line(
                line,
                enhanced,
            )[k]).1.len() > 0 && word_text_ok(parse_line(line, enhanced)[k].1),
{
    if enhanced {
        lemma_word_tags_nonempty(line, 0);
        let p = parse_line(line, enhanced);
        assert forall|k: int| 1 <= k < p.len() implies (#[trigger] p[k]).1.len() > 0 && word_text_ok(p[k].1) by {
            assert(p[k] == word_tags(line, 0)[k - 1]);
        }
    }
}

/// Every line of a parse is non-empty. In the enhanced format its first tag
/// has empty text and every other tag a text as [`word_text_ok`] describes; in
/// the plain format it holds one tag.
pub proof fn lemma_parse_lrc_lines_nonempty(s: Seq<char>)
    ensures
        forall|i: int|
            0 <= i < parse_lrc(s).len() ==> (#[trigger] parse_lrc(s)[i]).len() >= 1 && (
            !has_word_tag(s) ==> parse_lrc(s)[i].len() == 1) && (has_word_tag(s) ==> parse_lrc(
                s,
            )[i][0].1.len() == 0 && forall|j: int|
                1 <= j < parse_lrc(s)[i].len() ==> word_text_ok(#[trigger] parse_lrc(s)[i][j].1)),
{
    let ls = split_lines(s);
    let e = has_word_tag(s);
    lemma_parse_lines_is_filter_map(ls, e);
    let pred = |l: Seq<char>| line_time(l) is Some;
    assert forall|i: int| 0 <= i < parse_lrc(s).len() implies (#[trigger] parse_lrc(s)[i]).len()
        >= 1 && (!e ==> parse_lrc(s)[i].len() == 1) && (e ==> parse_lrc(s)[i][0].1.len() == 0
        && forall|j: int| 1 <= j < parse_lrc(s)[i].len() ==> word_text_ok(
        #[trigger] parse_lrc(s)[i][j].1,
    )) by {
        let l = ls.filter(pred)[i];
        ls.lemma_filter_pred(pred, i);
        lemma_parsed_line_shape(l, e);
    }
}

/// Three or fewer ASCII digits write a number below 10 to the power of their count.
proof fn lemma_decimal_bound(s: Seq<char>, i: int, j: int)
    requires
        ascii_digits(s, i, j),
        j - i <= 3,
    ensures
        0 <= decimal(s, i, j),
        j - i <= 1 ==> decimal(s, i, j) < 10,
        j - i <= 2 ==> decimal(s, i, j) < 100,
        decimal(s, i, j) < 1000,
    decreases j - i,
{
    if j > i {
        lemma_decimal_bound(s, i, j - 1);
        assert(is_ascii_digit(s[j - 1]));
        if j - i == 1 {
            assert(decimal(s, i, j - 1) == 0);
        }
    }
}

/// A time written in ASCII digits denotes a valid duration.
pub proof fn lemma_time_value_wf(s: Seq<char>, p: int, f: (int, int, int))
    requires
        fields_fit(s, p, f),
        time_is_ascii(s, p, f),
    ensures
        time_value(s, p, f).wf(),
{
    let q = p + f.0 + f.1 + 2;
    lemma_decimal_bound(s, q, p + time_len(f));
    lemma_decimal_bound(s, p, p + f.0);
    lemma_decimal_bound(s, p + f.0 + 1, p + f.0 + 1 + f.1);
    let xx = decimal(s, q, p + time_len(f));
    if f.2 == 3 {
        assert(xx * 1_000_000 < 1_000_000_000) by (nonlinear_arith)
            requires
                0 <= xx < 1000,
        ;
    } else {
        assert(xx * 10_000_000 < 1_000_000_000) by (nonlinear_arith)
            requires
                0 <= xx < 100,
        ;
    }
}

/// The word tags whose times are written in ASCII digits have valid durations.
proof fn lemma_word_tags_wf(s: Seq<char>, pos: int)
    requires
        word_tags_ascii(s, pos),
    ensures
        forall|k: int| 0 <= k < word_tags(s, pos).len() ==> (#[trigger] word_tags(s, pos)[k]).0.wf(),
    decreases s.len() - pos,
{
    if 0 <= pos < s.len() {
        lemma_word_tags_step(s, pos);
        match word_tag_at(s, pos) {
            Some(f) => {
                let ws = pos + time_len(f) + 3;
                lemma_word_end_bounds(s, ws);
                let we = word_end(s, ws);
                lemma_word_tags_wf(s, we);
                lemma_time_at_fits(s, pos + 1, Some('>'));
                lemma_time_value_wf(s, pos + 1, f);
                assert forall|k: int| 0 <= k < word_tags(s, pos).len() implies (#[trigger] word_tags(
                    s,
                    pos,
                )[k]).0.wf() by {
                    if k > 0 {
                        assert(word_tags(s, pos)[k] == word_tags(s, we)[k - 1]);
                    }
                }
            },
            None => {
                lemma_word_tags_wf(s, pos + 1);
            },
        }
    }
}

/// Every time of a parse whose times are written in ASCII digits is a valid duration.
pub proof fn lemma_parse_lrc_times_wf(s: Seq<char>)
    requires
        lrc_is_ascii(s),
    ensures
        forall|i: int, j: int|
            0 <= i < parse_lrc(s).len() && 0 <= j < parse_lrc(s)[i].len() ==> (#[trigger] parse_lrc(
                s,
            )[i][j]).0.wf(),
{
    let ls = split_lines(s);
    let e = has_word_tag(s);
    lemma_parse_lines_is_filter_map(ls, e);
    let pred = |l: Seq<char>| line_time(l) is Some;
    assert forall|i: int, j: int|
        0 <= i < parse_lrc(s).len() && 0 <= j < parse_lrc(s)[i].len() implies (#[trigger] parse_lrc(
        s,
    )[i][j]).0.wf() by {
        let l = ls.filter(pred)[i];
        ls.lemma_filter_pred(pred, i);
        assert(ls.filter(pred).contains(l));
        ls.lemma_filter_contains_rev(pred, l);
        let k = choose|k: int| 0 <= k < ls.len() && ls[k] == l;
        assert(line_is_ascii(ls[k], e));
        let f = line_time(l).unwrap();
        lemma_time_at_fits(l, 1, Some(']'));
        if j == 0 {
            lemma_time_value_wf(l, 1, f);
        } else {
            lemma_word_tags_wf(l, 0);
            assert(parse_lrc(s)[i][j] == word_tags(l, 0)[j - 1]);
        }
    }
}

/// Decimal values do not depend on where the digits sit.
proof fn lemma_decimal_shift(s: Seq<char>, t: Seq<char>, d: int, i: int, j: int)
    requires
        0 <= i <= j,
        0 <= i + d,
        j + d <= s.len(),
        j <= t.len(),
        forall|k: int| i <= k < j ==> t[k] == s[k + d],
    ensures
        decimal(t, i, j) == decimal(s, i + d, j + d),
    decreases j - i,
{
    if j > i {
        lemma_decimal_shift(s, t, d, i, j - 1);
    }
}

/// The time of a line tag `[time]` is what `parse_timestamp` reads from the
/// text `time` between the brackets.
pub proof fn lemma_line_time_is_timestamp(line: Seq<char>)
    requires
        line_time(line) is Some,
        time_is_ascii(line, 1, line_time(line).unwrap()),
    ensures
        has_ascii_time(line.subrange(1, 1 + time_len(line_time(line).unwrap()))),
        first_time_value(line.subrange(1, 1 + time_len(line_time(line).unwrap())))
            == time_value(line, 1, line_time(line).unwrap()),
{
    let f = line_time(line).unwrap();
    lemma_time_at_fits(line, 1, Some(']'));
    let t = line.subrange(1, 1 + time_len(f));
    assert forall|k: int| 0 <= k < t.len() implies t[k] == line[k + 1] by {}
    assert(digits(t, 0, f.0) == digits(line, 1, 1 + f.0));
    assert(digits(t, f.0 + 1, f.0 + 1 + f.1) == digits(line, f.0 + 2, f.0 + 2 + f.1));
    assert(digits(t, f.0 + f.1 + 2, f.0 + f.1 + 2 + f.2) == digits(line, f.0 + f.1 + 3, f.0 + f.1 + 3 + f.2));
    if f.0 == 1 {
        assert(!digits(t, 0, 2));
    }
    if f.1 == 1 {
        assert(!digits(t, f.0 + 1, f.0 + 3));
    }
    assert(time_at(t, 0, None) == Some(f));
    assert(time_search(t, 0) == Some(0int));
    lemma_decimal_shift(line, t, 1, 0, f.0);
    lemma_decimal_shift(line, t, 1, f.0 + 1, f.0 + 1 + f.1);
    lemma_decimal_shift(line, t, 1, f.0 + f.1 + 2, time_len(f));
    assert(ascii_digits(t, 0, f.0) == ascii_digits(line, 1, 1 + f.0));
    assert(ascii_digits(t, f.0 + 1, f.0 + 1 + f.1) == ascii_digits(line, f.0 + 2, f.0 + 2 + f.1));
    assert(ascii_digits(t, f.0 + f.1 + 2, time_len(f)) == ascii_digits(line, f.0 + f.1 + 3, 1 + time_len(f)));
}

/// In the plain format (no word tag anywhere in the text), the `i`-th lyric
/// line comes from the `i`-th text line `l` that opens with a time tag
/// `[time]`: it holds one tag, with that time and, as text, the whole rest of
/// `l` after the closing `]`.
pub proof fn lemma_plain_line_text(s: Seq<char>)
    requires
        !has_word_tag(s),
    ensures
        parse_lrc(s).len() == split_lines(s).filter(|l: Seq<char>| line_time(l) is Some).len(),
        forall|i: int|
            0 <= i < parse_lrc(s).len() ==> {
                let l = split_lines(s).filter(|l: Seq<char>| line_time(l) is Some)[i];
                let f = line_time(l).unwrap();
                &&& l[0] == '['
                &&& l[time_len(f) + 1] == ']'
                &&& #[trigger] parse_lrc(s)[i] == seq![
                    (time_value(l, 1, f), l.subrange(time_len(f) + 2, l.len() as int)),
                ]
            },
{
    let ls = split_lines(s);
    let pred = |l: Seq<char>| line_time(l) is Some;
    lemma_parse_lines_is_filter_map(ls, false);
    assert forall|i: int| 0 <= i < parse_lrc(s).len() implies {
        let l = ls.filter(pred)[i];
        let f = line_time(l).unwrap();
        &&& l[0] == '['
        &&& l[time_len(f) + 1] == ']'
        &&& #[trigger] parse_lrc(s)[i] == seq![
            (time_value(l, 1, f), l.subrange(time_len(f) + 2, l.len() as int)),
        ]
    } by {
        ls.lemma_filter_pred(pred, i);
        let l = ls.filter(pred)[i];
        lemma_time_at_fits(l, 1, Some(']'));
    }
}

} // verus!
