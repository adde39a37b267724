use std::collections::VecDeque;

use kiril::json::json_args_fit;
use kiril::lrc::parse::parse_lrc_file;
use kiril::playback::{Advance, Next, Output, Playback};
use kiril::timestamp::Timestamp;
use kiril::Lyric;

fn t(secs: u64, millis: u32) -> Timestamp {
    Timestamp::new(secs, millis * 1_000_000)
}

fn lyrics(text: &str) -> VecDeque<Lyric> {
    parse_lrc_file(text).unwrap()
}

fn word(o: Output) -> Option<String> {
    match o {
        Output::Word(w) => w,
        Output::Json(_) => panic!("expected a word"),
    }
}

#[test]
fn timestamps_order_and_difference() {
    assert!(t(1, 500).lt(&t(2, 0)));
    assert!(!t(2, 0).lt(&t(2, 0)));
    assert_eq!(t(2, 100).sub(&t(1, 500)), t(0, 600));
    assert_eq!(t(3, 0).sub(&t(3, 0)), t(0, 0));
}

#[test]
fn new_track_and_seek_reload() {
    let mut p = Playback::new(false, 2, t(2, 0));
    assert!(p.observe(&Some("a".to_string()), t(0, 0)));
    assert!(p.reload(Some("a".to_string()), VecDeque::new(), String::new()).is_none());
    assert!(!p.observe(&Some("a".to_string()), t(0, 0)));
    assert!(!p.observe(&Some("a".to_string()), t(1, 0)));
    assert!(p.observe(&Some("a".to_string()), t(0, 500)));
    assert!(p.observe(&Some("b".to_string()), t(0, 600)));
    assert!(p.observe(&None, t(0, 700)));
}

#[test]
fn no_lyrics_means_sleeping() {
    let mut p = Playback::new(false, 2, t(2, 0));
    assert_eq!(p.advance(t(5, 0)), Advance { line_break: false, next: Next::Sleep(t(2, 0)) });
}

#[test]
fn text_mode_plays_words_in_order() {
    let mut p = Playback::new(false, 2, t(2, 0));
    p.observe(&Some("a".to_string()), t(0, 0));
    p.reload(Some("a".to_string()), lyrics("[00:01.00] Hello \n[00:02.00]World\n"), String::new());
    assert_eq!(p.advance(t(0, 500)), Advance { line_break: true, next: Next::Await(t(0, 500)) });
    assert!(p.can_commit());
    assert_eq!(word(p.commit()), Some("Hello".to_string()));
    assert_eq!(p.advance(t(2, 500)), Advance { line_break: true, next: Next::Commit });
    assert_eq!(word(p.commit()), Some("World".to_string()));
    // everything was taken up: sleep from now on
    assert_eq!(p.advance(t(3, 0)), Advance { line_break: false, next: Next::Sleep(t(2, 0)) });
}

#[test]
fn far_words_are_waited_for_in_retry_steps() {
    let mut p = Playback::new(false, 2, t(2, 0));
    p.observe(&None, t(0, 0));
    p.reload(None, lyrics("[00:10.00]Late\n[00:11.00]x\n"), String::new());
    assert_eq!(p.advance(t(1, 0)), Advance { line_break: true, next: Next::Sleep(t(2, 0)) });
    // the word is still pending: nothing new is taken up
    assert_eq!(p.advance(t(8, 500)), Advance { line_break: false, next: Next::Await(t(1, 500)) });
    assert_eq!(word(p.commit()), Some("Late".to_string()));
}

#[test]
fn blank_words_print_nothing() {
    let mut p = Playback::new(false, 2, t(2, 0));
    p.observe(&None, t(0, 0));
    p.reload(None, lyrics("[00:01.00]   \n[00:02.00]x\n"), String::new());
    assert_eq!(p.advance(t(1, 500)).next, Next::Commit);
    assert_eq!(word(p.commit()), None);
}

#[test]
fn json_mode_messages_follow_lines_and_words() {
    let ls = lyrics("[00:01.00] <00:01.00> a <00:02.00> b\n[00:03.00] <00:03.00> c\n[00:04.00] <00:04.00> d\n");
    assert!(json_args_fit(&ls, 0, 0, 1));
    let mut p = Playback::new(true, 1, t(2, 0));
    p.observe(&None, t(0, 0));
    let first = p.reload(None, ls, "cover".to_string()).unwrap();
    assert_eq!(first.cover, "cover");
    assert_eq!(first.prev_words, "");
    assert_eq!(first.curr_word, "a");
    assert_eq!(first.next_words, " b ");
    // the line tag of line 0
    assert_eq!(p.advance(t(1, 500)), Advance { line_break: false, next: Next::Commit });
    assert!(p.can_commit());
    match p.commit() {
        Output::Json(m) => {
            assert_eq!(p.line_num, 0);
            assert_eq!(p.word_num, 0);
            assert_eq!(m.curr_word, "a");
            assert_eq!(m.next_words, " b ");
            assert_eq!(m.cover, "");
            assert_eq!(m.next_lines, vec!["c".to_string()]);
        }
        Output::Word(_) => panic!("expected JSON"),
    }
    // word "a"
    assert_eq!(p.advance(t(1, 500)).next, Next::Commit);
    match p.commit() {
        Output::Json(m) => {
            assert_eq!(p.word_num, 1);
            assert_eq!(m.curr_word, "a");
            assert_eq!(m.prev_words, "");
        }
        Output::Word(_) => panic!("expected JSON"),
    }
    // word "b"
    assert_eq!(p.advance(t(2, 500)).next, Next::Commit);
    match p.commit() {
        Output::Json(m) => {
            assert_eq!(m.prev_words, "a ");
            assert_eq!(m.curr_word, "b");
            assert_eq!(m.next_words, " ");
        }
        Output::Word(_) => panic!("expected JSON"),
    }
    // next line
    assert_eq!(p.advance(t(3, 500)).next, Next::Commit);
    match p.commit() {
        Output::Json(m) => {
            assert_eq!(p.line_num, 1);
            assert_eq!(p.word_num, 0);
            assert_eq!(m.prev_lines, vec!["a b".to_string()]);
            assert_eq!(m.next_lines, vec!["d".to_string()]);
        }
        Output::Word(_) => panic!("expected JSON"),
    }
}

#[test]
fn last_line_words_are_all_shown() {
    let mut p = Playback::new(false, 2, t(2, 0));
    p.observe(&None, t(0, 0));
    p.reload(None, lyrics("[00:01.00] <00:01.00> a <00:02.00> b\n"), String::new());
    assert_eq!(p.advance(t(1, 500)), Advance { line_break: true, next: Next::Commit });
    assert_eq!(word(p.commit()), None);
    assert_eq!(p.advance(t(1, 500)), Advance { line_break: false, next: Next::Commit });
    assert_eq!(word(p.commit()), Some("a".to_string()));
    assert_eq!(p.advance(t(1, 500)), Advance { line_break: false, next: Next::Await(t(0, 500)) });
    assert_eq!(word(p.commit()), Some("b".to_string()));
    assert_eq!(p.advance(t(3, 0)), Advance { line_break: false, next: Next::Sleep(t(2, 0)) });
}

#[test]
fn last_plain_line_is_shown_after_waiting() {
    let mut p = Playback::new(false, 2, t(2, 0));
    p.observe(&None, t(0, 0));
    p.reload(None, lyrics("[00:05.00]only\n"), String::new());
    assert_eq!(p.advance(t(0, 0)), Advance { line_break: true, next: Next::Sleep(t(2, 0)) });
    assert_eq!(p.advance(t(4, 0)), Advance { line_break: false, next: Next::Await(t(1, 0)) });
    assert_eq!(word(p.commit()), Some("only".to_string()));
}
