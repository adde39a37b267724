use std::collections::VecDeque;

use kiril::json::{json_args_fit, json_convert};
use kiril::timestamp::Timestamp;
use kiril::Lyric;

fn line(words: &[(u64, &str)]) -> Lyric {
    words.iter().map(|(s, w)| (Timestamp::new(*s, 0), w.to_string())).collect()
}

fn plain() -> VecDeque<Lyric> {
    vec![line(&[(1, "Hello world")]), line(&[(2, "Second")]), line(&[(3, "Third")])]
        .into_iter()
        .collect()
}

fn enhanced() -> VecDeque<Lyric> {
    vec![
        line(&[(1, ""), (1, "Hello"), (2, " "), (3, "world"), (4, "again")]),
        line(&[(5, ""), (5, "  "), (6, "next")]),
    ]
    .into_iter()
    .collect()
}

#[test]
fn plain_window_around_the_middle_line() {
    let m = json_convert(&plain(), 1, 0, 1, "cover".to_string());
    assert_eq!(m.prev_lines, vec!["Hello world".to_string()]);
    assert_eq!(m.next_lines, vec!["Third".to_string()]);
    assert_eq!(m.prev_words, "");
    assert_eq!(m.curr_word, "Second");
    assert_eq!(m.next_words, "");
    assert_eq!(m.cover, "cover");
}

#[test]
fn window_is_padded_before_the_first_and_after_the_last_line() {
    let m = json_convert(&plain(), 0, 0, 2, String::new());
    assert_eq!(m.prev_lines, vec![String::new(), String::new()]);
    assert_eq!(m.next_lines, vec!["Second".to_string(), "Third".to_string()]);
    let m = json_convert(&plain(), 2, 0, 2, String::new());
    assert_eq!(m.prev_lines, vec!["Hello world".to_string(), "Second".to_string()]);
    assert_eq!(m.next_lines, vec![String::new(), String::new()]);
}

#[test]
fn line_past_the_end_goes_to_the_next_lines() {
    let m = json_convert(&plain(), 5, 7, 1, String::new());
    assert!(m.prev_lines.is_empty());
    assert_eq!(m.next_lines, vec![String::new(), String::new(), String::new()]);
    assert_eq!(m.curr_word, "");
    assert_eq!(m.prev_words, "");
    assert_eq!(m.next_words, "");
}

#[test]
fn enhanced_line_split_at_a_blank_word() {
    let m = json_convert(&enhanced(), 0, 2, 1, String::new());
    assert_eq!(m.prev_words, "Hello ");
    assert_eq!(m.curr_word, "world");
    assert_eq!(m.next_words, " again ");
    assert_eq!(m.prev_lines, vec![String::new()]);
    assert_eq!(m.next_lines, vec!["next".to_string()]);
}

#[test]
fn enhanced_line_split_at_a_word() {
    let m = json_convert(&enhanced(), 0, 1, 0, String::new());
    assert_eq!(m.prev_words, "");
    assert_eq!(m.curr_word, "Hello");
    assert_eq!(m.next_words, " world again ");
    assert!(m.prev_lines.is_empty());
    assert!(m.next_lines.is_empty());
}

#[test]
fn enhanced_line_after_its_last_word() {
    let m = json_convert(&enhanced(), 0, 5, 0, String::new());
    assert_eq!(m.prev_words, "Hello world again ");
    assert_eq!(m.curr_word, "");
    assert_eq!(m.next_words, " ");
}

#[test]
fn two_blank_words_show_no_current_word() {
    let ls: VecDeque<Lyric> = vec![line(&[(1, ""), (2, " "), (3, "\t")])].into_iter().collect();
    let m = json_convert(&ls, 0, 1, 0, String::new());
    assert_eq!(m.curr_word, "");
    assert_eq!(m.next_words, " ");
}

#[test]
fn whole_lines_join_their_non_blank_words() {
    let m = json_convert(&enhanced(), 1, 0, 1, String::new());
    assert_eq!(m.prev_lines, vec!["Hello world again".to_string()]);
    assert_eq!(m.next_lines, vec![String::new()]);
}

#[test]
fn argument_limits() {
    assert!(json_args_fit(&plain(), 1, 0, 1));
    assert!(!json_args_fit(&plain(), 0, 0, u32::MAX));
    assert!(!json_args_fit(&enhanced(), 0, 6, 1));
    assert!(json_args_fit(&enhanced(), 0, 5, 1));
    let with_empty: VecDeque<Lyric> = vec![VecDeque::new()].into_iter().collect();
    assert!(!json_args_fit(&with_empty, 0, 0, 1));
    assert!(json_args_fit(&with_empty, 1, 0, 1));
}

#[test]
fn parsed_lyrics_can_be_loaded() {
    let ls = kiril::lrc::parse::parse_lrc_file("[00:01.00]a\n[00:02.00]\n").unwrap();
    assert!(json_args_fit(&ls, 0, 0, 5));
    assert!(json_args_fit(&ls, 0, 0, u32::MAX - 1));
    assert!(!json_args_fit(&ls, 0, 0, u32::MAX));
}

#[test]
fn window_sizes() {
    for step in 0..4u32 {
        for ln in 0..6u32 {
            let m = json_convert(&plain(), ln, 0, step, String::new());
            let total = m.prev_lines.len() + m.next_lines.len();
            if (ln as usize) < plain().len() {
                assert_eq!(m.prev_lines.len(), step as usize);
                assert_eq!(m.next_lines.len(), step as usize);
            } else {
                assert_eq!(total, 2 * step as usize + 1);
            }
        }
    }
}
