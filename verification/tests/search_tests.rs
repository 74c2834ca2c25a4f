use normalizador_nq4::model::{AudioFile, Diagnostics, TagData};
use normalizador_nq4::scanner::Mp3FileScanner;
use normalizador_nq4::search::{matches_filter, text_contains};

#[test]
fn filter_matches_any_field_without_case() {
    assert!(matches_filter("Song", "Band", "Album", "a.mp3", ""));
    assert!(matches_filter("Song", "Band", "Album", "a.mp3", "   "));
    assert!(matches_filter("Song", "Band", "Album", "a.mp3", " bAnD "));
    assert!(matches_filter("Song", "Band", "Album", "a.mp3", "A.MP3"));
    assert!(matches_filter("Song", "Band", "Album", "a.mp3", "song band"));
    assert!(!matches_filter("Song", "Band", "Album", "a.mp3", "rock"));
    assert!(matches_filter("Ñandú", "", "", "x.mp3", "ñan"));
}

#[test]
fn substring_search() {
    assert!(text_contains("abcabd", "abd"));
    assert!(text_contains("abc", ""));
    assert!(!text_contains("ab", "abc"));
    assert!(!text_contains("abcabc", "cba"));
}

#[test]
fn scan_keeps_mp3_files_in_key_order() {
    let found = vec![
        "dir/b.MP3".to_owned(),
        "dir/notes.txt".to_owned(),
        "dir/A.mp3".to_owned(),
        "dir/.mp3".to_owned(),
        "dir/c.mp3.bak".to_owned(),
        "dir/a.mp3".to_owned(),
    ];
    assert_eq!(
        Mp3FileScanner::mp3_files(found),
        vec!["dir/A.mp3".to_owned(), "dir/a.mp3".to_owned(), "dir/b.MP3".to_owned()]
    );
}

#[test]
fn shown_title_falls_back_to_the_name() {
    let mut f = AudioFile {
        path: "music/track.mp3".to_owned(),
        tags: TagData::default(),
        diagnostics: Diagnostics::default(),
        dirty: false,
    };
    assert_eq!(f.shown_title(), "track.mp3");
    f.tags.title = "  ".to_owned();
    assert_eq!(f.shown_title(), "track.mp3");
    f.tags.title = "Title".to_owned();
    assert_eq!(f.shown_title(), "Title");
}

#[test]
fn listing_from_given_extensions() {
    let paths = vec![
        "C:\\Music\\b.MP3".to_owned(),
        "C:\\Music\\notes.txt".to_owned(),
        "C:\\Music\\A.mp3".to_owned(),
        "C:\\Music\\noext".to_owned(),
    ];
    let exts = vec![Some("MP3".to_owned()), Some("txt".to_owned()), Some("mp3".to_owned()), None];
    assert_eq!(
        Mp3FileScanner::mp3_of_extensions(paths, exts),
        vec!["C:\\Music\\A.mp3".to_owned(), "C:\\Music\\b.MP3".to_owned()]
    );
}

#[test]
fn shown_title_from_a_given_name() {
    assert_eq!(normalizador_nq4::model::shown_title_from("  ", "MP3".to_owned()), "MP3");
    assert_eq!(normalizador_nq4::model::shown_title_from(" T ", "MP3".to_owned()), " T ");
}
