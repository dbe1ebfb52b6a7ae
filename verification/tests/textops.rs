use cramp::song::{extension_of, is_playlist_path, Song};
use cramp::text::{find_char, has_prefix, matches_search, parse_u64, str_eq, trim};
use cramp::timefmt::{format_time, u64_to_string};
use cramp::uri::parse_file_uri;
use cramp::{playback_status, Message, PlaybackStatus};

#[test]
fn str_eq_compares_by_characters() {
    assert!(str_eq("abc", "abc"));
    assert!(!str_eq("abc", "abd"));
    assert!(!str_eq("abc", "abcd"));
    assert!(str_eq("", ""));
}

#[test]
fn has_prefix_checks_the_start() {
    assert!(has_prefix("EXTNEXT:/a", "EXTNEXT:"));
    assert!(!has_prefix("EXT", "EXTNEXT:"));
    assert!(!has_prefix("XEXTNEXT:", "EXTNEXT:"));
    assert!(has_prefix("anything", ""));
}

#[test]
fn trim_strips_both_ends() {
    assert_eq!(trim("  a b \t"), "a b");
    assert_eq!(trim("a"), "a");
    assert_eq!(trim(" \t\r "), "");
    assert_eq!(trim(""), "");
}

#[test]
fn parse_u64_exact_values() {
    assert_eq!(parse_u64("0"), Some(0));
    assert_eq!(parse_u64("213"), Some(213));
    assert_eq!(parse_u64("18446744073709551615"), Some(u64::MAX));
    assert_eq!(parse_u64("18446744073709551616"), None);
    assert_eq!(parse_u64(""), None);
    assert_eq!(parse_u64("12x"), None);
    assert_eq!(parse_u64("-3"), None);
}

#[test]
fn find_char_first_occurrence() {
    assert_eq!(find_char("12,34,5", ','), Some(2));
    assert_eq!(find_char("abc", ','), None);
}

#[test]
fn matches_search_lowers_the_haystack() {
    assert!(matches_search("Music/ROCK/A.mp3", "rock"));
    assert!(matches_search("plain", ""));
    assert!(!matches_search("plain", "Q"));
    assert!(!matches_search("short", "muchlongerneedle"));
}

#[test]
fn song_name_derived_from_path() {
    let s = Song::new("/a/b/tune.ogg".to_string());
    assert_eq!(s.name, "tune.ogg");
    assert_eq!(s.path, "/a/b/tune.ogg");
    assert!(s.user_added);
    let t = Song::new("bare.ogg".to_string());
    assert_eq!(t.name, "bare.ogg");
}

#[test]
fn extension_follows_the_last_dot() {
    assert_eq!(extension_of("/a/b/tune.ogg"), Some("ogg"));
    assert_eq!(extension_of("archive.tar.gz"), Some("gz"));
    assert_eq!(extension_of("/a/no_extension"), None);
    assert_eq!(extension_of("/a/.hidden"), None);
    assert_eq!(extension_of("trailing."), Some(""));
    assert!(is_playlist_path("/music/all.m3u"));
    assert!(is_playlist_path("list.m3u4"));
    assert!(!is_playlist_path("song.mp3"));
    assert!(!is_playlist_path("m3u"));
}

#[test]
fn song_builders_set_fields() {
    let s = Song::new("a.mp3".to_string())
        .next(Some("b.mp3".to_string()))
        .no_shuffle(true);
    assert_eq!(s.next.as_deref(), Some("b.mp3"));
    assert!(s.no_shuffle);
}

/// Percent-decoding goes through the real decoder: an encoded space
/// must come back as a space, so a decoder that returned its input
/// unchanged would fail here.
#[test]
fn file_uri_decodes_percent_escapes() {
    assert_eq!(
        parse_file_uri("file:///home/u/a%20b.mp3").as_deref(),
        Some("/home/u/a b.mp3")
    );
    assert_eq!(parse_file_uri("file:///plain.mp3").as_deref(), Some("/plain.mp3"));
    assert_eq!(parse_file_uri("http://host/x.mp3"), None);
    assert_eq!(parse_file_uri("/no/scheme.mp3"), None);
}

#[test]
fn playback_status_reflects_the_engine() {
    assert_eq!(playback_status(true, false), PlaybackStatus::Playing);
    assert_eq!(playback_status(false, false), PlaybackStatus::Paused);
    assert_eq!(playback_status(true, true), PlaybackStatus::Stopped);
    assert_eq!(playback_status(false, true), PlaybackStatus::Stopped);
}

#[test]
fn decimal_writing_is_exact() {
    assert_eq!(u64_to_string(0), "0");
    assert_eq!(u64_to_string(7), "7");
    assert_eq!(u64_to_string(10), "10");
    assert_eq!(u64_to_string(1234567890), "1234567890");
}

#[test]
fn time_line_without_hours() {
    assert_eq!(format_time(59, 80), "00:59 / 01:20");
    assert_eq!(format_time(0, 0), "00:00 / 00:00");
}

#[test]
fn time_line_with_hours_on_both_sides() {
    assert_eq!(format_time(3725, 7200), "1:02:05 / 2:00:00");
    assert_eq!(format_time(59, 3600), "0:00:59 / 1:00:00");
}

#[test]
fn message_keeps_its_text() {
    let m = Message::new("loaded 3 songs".to_string());
    assert_eq!(m.as_str(), "loaded 3 songs");
    let s = Message::stc("failed to get home directory! defaulting to cwd");
    assert_eq!(s.as_str(), "failed to get home directory! defaulting to cwd");
}
