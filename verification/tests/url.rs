use kiril::lrc::find::{lrc_file_name, lyric_location, search_plan, EntryKind, LyricLocation, SearchPlan};
use kiril::url::{cover_path, track_path};

#[test]
fn file_url_to_path() {
    assert_eq!(track_path("file:///music/a%20b.flac"), Some("/music/a b.flac".to_string()));
    assert_eq!(track_path("file:///music/plain.flac"), Some("/music/plain.flac".to_string()));
}

#[test]
fn other_schemes_have_no_path() {
    assert_eq!(track_path("http://example.org/a.flac"), None);
    assert_eq!(track_path(""), None);
}

#[test]
fn undecodable_url_has_no_path() {
    assert_eq!(track_path("file:///music/%FF.flac"), None);
}

#[test]
fn repeated_scheme_is_removed() {
    assert_eq!(track_path("file://file:///x.flac"), Some("/x.flac".to_string()));
}

#[test]
fn percent_without_hex_is_kept() {
    assert_eq!(track_path("file:///a%zz%4"), Some("/a%zz%4".to_string()));
    assert_eq!(track_path("file:///%C3%A9t%C3%A9"), Some("/\u{e9}t\u{e9}".to_string()));
    assert_eq!(track_path("file:///a+b"), Some("/a+b".to_string()));
}

#[test]
fn cover_paths() {
    assert_eq!(cover_path(Some("file:///c/cover%20art.png")), "/c/cover art.png");
    assert_eq!(cover_path(Some("file://file:///c.png")), "file:///c.png");
    assert_eq!(cover_path(Some("https://example.org/c.png")), "");
    assert_eq!(cover_path(Some("file:///%FF")), "");
    assert_eq!(cover_path(None), "");
}

#[test]
fn lyric_file_names() {
    assert_eq!(lrc_file_name("song"), "song.lrc");
    assert_eq!(lrc_file_name(""), ".lrc");
}

fn file(n: &str) -> EntryKind {
    EntryKind::File(n.to_string())
}

#[test]
fn files_of_the_directory_come_before_its_subdirectories() {
    let entries = vec![EntryKind::Dir, file("b.lrc"), EntryKind::Other, file("a.lrc"), file("a.lrc")];
    match search_plan(&entries, "a.lrc", 1) {
        SearchPlan::Found(i) => assert_eq!(i, 3),
        other => panic!("unexpected {:?}", other),
    }
}

#[test]
fn subdirectories_are_searched_in_order_while_depth_is_left() {
    let entries = vec![file("x"), EntryKind::Dir, EntryKind::Other, EntryKind::Dir];
    match search_plan(&entries, "a.lrc", 1) {
        SearchPlan::Descend(dirs, d) => {
            assert_eq!(dirs, vec![1, 3]);
            assert_eq!(d, 0);
        }
        other => panic!("unexpected {:?}", other),
    }
    assert!(matches!(search_plan(&entries, "a.lrc", 0), SearchPlan::NotFound));
    match search_plan(&vec![], "a.lrc", 2) {
        SearchPlan::Descend(dirs, d) => {
            assert!(dirs.is_empty());
            assert_eq!(d, 1);
        }
        other => panic!("unexpected {:?}", other),
    }
}

fn at(url: &str) -> Option<(String, String)> {
    match lyric_location(url) {
        LyricLocation::At(d, n) => Some((d, n)),
        _ => None,
    }
}

#[test]
fn lyric_file_next_to_the_track() {
    assert_eq!(at("file:///music/song.flac"), Some(("/music".to_string(), "song.lrc".to_string())));
    assert_eq!(at("file:///a%20b/c%20d.mp3"), Some(("/a b".to_string(), "c d.lrc".to_string())));
    assert_eq!(at("file:///x.tar.gz"), Some(("/".to_string(), "x.tar.lrc".to_string())));
    assert_eq!(at("file:///music/.hidden"), Some(("/music".to_string(), ".hidden.lrc".to_string())));
}

#[test]
fn no_lyric_file_location() {
    assert!(matches!(lyric_location("http://example.org/a.flac"), LyricLocation::Unknown));
    assert!(matches!(lyric_location("file:///"), LyricLocation::Unknown));
    assert!(matches!(lyric_location("file:///music/%FF.flac"), LyricLocation::Unknown));
    assert!(matches!(lyric_location("file://music/a.flac"), LyricLocation::Relative));
}
