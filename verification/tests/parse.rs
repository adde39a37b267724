use std::collections::VecDeque;

use kiril::lrc::parse::{lrc_times_are_ascii, parse_lrc_file, parse_timestamp};
use kiril::timestamp::Timestamp;
use kiril::Lyric;
use regex::Regex;

fn ts(secs: u64, nanos: u32) -> Timestamp {
    Timestamp::new(secs, nanos)
}

fn tags(l: &Lyric) -> Vec<(u64, u32, String)> {
    l.iter().map(|t| (t.0.secs, t.0.nanos, t.1.clone())).collect()
}

fn all(ls: &VecDeque<Lyric>) -> Vec<Vec<(u64, u32, String)>> {
    ls.iter().map(tags).collect()
}

/// The lyric format written as regular expressions, read line by line.
fn by_regex(text: &str) -> Vec<Vec<(u64, u32, String)>> {
    let word = Regex::new(r"<(\d{1,2}:\d{1,2}\.\d{2,3})> ([^< \n]*)").unwrap();
    let rest = Regex::new(r"\[\d{1,2}:\d{1,2}\.\d{2,3}\](.*)").unwrap();
    let start = Regex::new(r"^\[(\d{1,2}:\d{1,2}\.\d{2,3})\]").unwrap();
    let time = Regex::new(r"(\d{1,2}):(\d{1,2})\.(\d{2,3})").unwrap();
    let value = |s: &str| -> (u64, u32) {
        let c = time.captures(s).unwrap();
        let mm: u64 = c[1].parse().unwrap();
        let ss: u64 = c[2].parse().unwrap();
        let xx: u32 = c[3].parse().unwrap();
        let scale = if c[3].len() == 3 { 1_000_000 } else { 10_000_000 };
        (mm * 60 + ss, xx * scale)
    };
    let enhanced = word.is_match(text);
    let mut out = Vec::new();
    for line in text.split('\n') {
        let Some(c) = start.captures(line) else { continue };
        let (s, n) = value(c.get(1).unwrap().as_str());
        let mut l = Vec::new();
        if enhanced {
            l.push((s, n, String::new()));
            for m in word.captures_iter(line) {
                let (s, n) = value(m.get(1).unwrap().as_str());
                let w = m.get(2).unwrap().as_str();
                l.push((s, n, if w.is_empty() { " ".to_string() } else { w.to_string() }));
            }
        } else {
            let r = rest.captures(line).unwrap();
            l.push((s, n, r[1].to_string()));
        }
        out.push(l);
    }
    out
}

fn check_against_regex(text: &str) {
    assert!(lrc_times_are_ascii(text));
    let parsed = parse_lrc_file(text).unwrap();
    assert_eq!(all(&parsed), by_regex(text), "text: {:?}", text);
}

#[test]
fn timestamp_centiseconds() {
    assert_eq!(parse_timestamp("01:02.34"), ts(62, 340_000_000));
}

#[test]
fn timestamp_milliseconds() {
    assert_eq!(parse_timestamp("1:2.345"), ts(62, 345_000_000));
}

#[test]
fn timestamp_leftmost_in_text() {
    assert_eq!(parse_timestamp("x12:34.567y"), ts(754, 567_000_000));
    assert_eq!(parse_timestamp("123:45.67"), ts(23 * 60 + 45, 670_000_000));
    assert_eq!(parse_timestamp("99:59.9999"), ts(99 * 60 + 59, 999_000_000));
}

#[test]
fn plain_lines() {
    let text = "[ar:Someone]\n[00:01.00]Hello world\nno tag here\n[00:02.50] Second line \n";
    let parsed = parse_lrc_file(text).unwrap();
    assert_eq!(
        all(&parsed),
        vec![
            vec![(1, 0, "Hello world".to_string())],
            vec![(2, 500_000_000, " Second line ".to_string())],
        ]
    );
}

#[test]
fn enhanced_lines() {
    let text = "[00:01.00] <00:01.00> Hello <00:01.500> world\n[00:03.00] <00:03.00> <00:03.50> again\n";
    let parsed = parse_lrc_file(text).unwrap();
    assert_eq!(
        all(&parsed),
        vec![
            vec![
                (1, 0, String::new()),
                (1, 0, "Hello".to_string()),
                (1, 500_000_000, "world".to_string()),
            ],
            vec![
                (3, 0, String::new()),
                (3, 0, " ".to_string()),
                (3, 500_000_000, "again".to_string()),
            ],
        ]
    );
}

#[test]
fn one_word_tag_makes_the_whole_file_enhanced() {
    let text = "[00:01.00]plain text\ncomment <00:09.00> x\n";
    let parsed = parse_lrc_file(text).unwrap();
    assert_eq!(all(&parsed), vec![vec![(1, 0, String::new())]]);
}

#[test]
fn empty_text_has_no_lines() {
    assert_eq!(parse_lrc_file("").unwrap().len(), 0);
    assert_eq!(parse_lrc_file("\n\n").unwrap().len(), 0);
}

#[test]
fn malformed_tags_are_not_lines() {
    let text = "[000:01.00]a\n[00:01.0]b\n[00:01.0000]c\n[0:0.00]d\n [00:01.00]e\n[00:01.00";
    let parsed = parse_lrc_file(text).unwrap();
    assert_eq!(all(&parsed), vec![vec![(0, 0, "d".to_string())]]);
}

#[test]
fn carriage_returns_are_kept() {
    let text = "[00:01.00]line\r\n";
    let parsed = parse_lrc_file(text).unwrap();
    assert_eq!(all(&parsed), vec![vec![(1, 0, "line\r".to_string())]]);
}

#[test]
fn non_ascii_digits_are_reported() {
    assert!(!lrc_times_are_ascii("[0\u{661}:00.00]x\n"));
    assert!(lrc_times_are_ascii("no times at all \u{661}\n"));
    assert!(!lrc_times_are_ascii("[00:01.00] <0\u{661}:00.00> x\n"));
}

#[test]
fn unicode_digits_count_as_digits() {
    // A word tag written in Arabic-Indic digits on a line without a line tag
    // still switches the file to the enhanced format.
    let text = "[00:01.00]plain\n<\u{661}:\u{662}\u{663}.\u{664}\u{665}> x\n";
    let parsed = parse_lrc_file(text).unwrap();
    assert_eq!(all(&parsed), vec![vec![(1, 0, String::new())]]);
}

#[test]
fn agrees_with_the_regular_expressions() {
    let texts = [
        "[00:01.00]Hello\n[00:02.00]World",
        "[00:01.00] <00:01.00> a <00:01.20> b <00:01.40>  c\n[00:02.00] <00:02.00> d<x>\n",
        "[01:02.345]x<00:01.00> y\n[1:2.34]<1:2.345> z\n",
        "[00:01.00]<00:01.00> a<00:02.00> b\n",
        "text\n[00:10.00]<00:10.00> \n[00:11.00] <00:11.00>  <00:12.00> w\n",
        "[12:34.56]\n[12:34.56]plain \u{e9}\u{e8} text\n",
        "<00:01.00> not a line\n[00:05.00]a <99:99.999> b\n",
    ];
    for t in texts {
        check_against_regex(t);
    }
}

#[test]
fn line_tag_time_is_the_timestamp_between_the_brackets() {
    let parsed = parse_lrc_file("[01:02.34]x\n[3:4.567]y").unwrap();
    assert_eq!(parsed[0][0].0, parse_timestamp("01:02.34"));
    assert_eq!(parsed[1][0].0, parse_timestamp("3:4.567"));
}

#[test]
fn parsed_times_are_valid_durations() {
    let parsed = parse_lrc_file("[99:99.999] <99:99.99> a <0:0.00> b\n").unwrap();
    for l in parsed.iter() {
        for t in l.iter() {
            assert!(t.0.nanos < 1_000_000_000);
        }
    }
    assert_eq!(parsed[0][0].0, ts(99 * 60 + 99, 999_000_000));
    assert_eq!(parsed[0][1].0, ts(99 * 60 + 99, 990_000_000));
}

#[test]
fn every_parsed_line_opens_with_its_line_tag() {
    let parsed = parse_lrc_file("[00:01.00] <00:02.00> a\n[00:03.00]\n[00:04.00] b <00:05.00> \n").unwrap();
    assert_eq!(parsed.len(), 3);
    for l in parsed.iter() {
        assert!(!l.is_empty());
        assert_eq!(l[0].1, "");
        for t in l.iter().skip(1) {
            assert!(!t.1.is_empty());
        }
    }
    assert_eq!(parsed[2][1].1, " ");
}
