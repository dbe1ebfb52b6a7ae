use cramp::queue::{LoopMode, Queue};
use cramp::parse::parse_playlist;

/// The directives of the playlist format land on the following path
/// line: name and duration from the duration directive, the override
/// from the next directive, the shuffle exclusion from its own.
#[test]
fn playlist_directives_apply_to_next_path() {
    let text = "#EXTM3U\n#EXTINF:213,Morning Song\n/m/one.mp3\n#EXTNEXT:/m/three.mp3\n/m/two.mp3\n#EXTNOSHUFFLE\n/m/hidden.mp3\n/m/plain.mp3\n";
    let songs = parse_playlist(text, "/home/u");
    assert_eq!(songs.len(), 4);

    assert_eq!(songs[0].path, "/m/one.mp3");
    assert_eq!(songs[0].name, "Morning Song");
    assert_eq!(songs[0].duration, Some(213));
    assert_eq!(songs[0].next, None);
    assert!(!songs[0].no_shuffle);
    assert!(songs[0].user_added);

    assert_eq!(songs[1].path, "/m/two.mp3");
    assert_eq!(songs[1].name, "two.mp3");
    assert_eq!(songs[1].next.as_deref(), Some("/m/three.mp3"));
    assert_eq!(songs[1].duration, None);

    assert_eq!(songs[2].path, "/m/hidden.mp3");
    assert!(songs[2].no_shuffle);

    assert_eq!(songs[3].path, "/m/plain.mp3");
    assert!(!songs[3].no_shuffle);
}

/// A leading `~/` expands to the home directory.
#[test]
fn playlist_expands_home() {
    let songs = parse_playlist("~/music/a.mp3\n", "/home/u");
    assert_eq!(songs.len(), 1);
    assert_eq!(songs[0].path, "/home/u/music/a.mp3");
    assert_eq!(songs[0].name, "a.mp3");
}

/// Blank lines and unknown directives are ignored; carriage returns
/// from foreign line endings are stripped.
#[test]
fn playlist_ignores_noise() {
    let songs = parse_playlist("#EXTM3U\r\n\r\n\n#SOMETHINGELSE\na.mp3\r\n\n", "/h");
    assert_eq!(songs.len(), 1);
    assert_eq!(songs[0].path, "a.mp3");
}

/// A malformed duration directive changes nothing.
#[test]
fn playlist_bad_extinf_ignored() {
    let songs = parse_playlist("#EXTINF:abc,Nope\na.mp3\n#EXTINF:12\nb.mp3\n", "/h");
    assert_eq!(songs.len(), 2);
    assert_eq!(songs[0].name, "a.mp3");
    assert_eq!(songs[0].duration, None);
    assert_eq!(songs[1].name, "b.mp3");
    assert_eq!(songs[1].duration, None);
}

/// The shuffle-excluded directive tolerates surrounding whitespace, as
/// the format's writers produce it.
#[test]
fn playlist_noshuffle_trimmed() {
    let songs = parse_playlist("#EXTNOSHUFFLE \t\na.mp3\n", "/h");
    assert_eq!(songs.len(), 1);
    assert!(songs[0].no_shuffle);
}

/// Loading a playlist queues the shuffle-included songs, in order,
/// and registers the excluded ones without queueing them.
#[test]
fn load_playlist_text_queues_eligible() {
    let mut q = Queue::new();
    q.set_loop_mode(LoopMode::Off);
    let count = q.load_playlist_text("a.mp3\n#EXTNOSHUFFLE\nb.mp3\nc.mp3\n", "/h");
    assert_eq!(count, 3);
    assert_eq!(q.songs().len(), 3);
    let pending = q.upcoming();
    assert_eq!(pending.len(), 2);
    assert_eq!(q.get(pending[0]).path, "a.mp3");
    assert_eq!(q.get(pending[1]).path, "c.mp3");
}

/// An empty playlist text registers nothing.
#[test]
fn load_playlist_text_empty() {
    let mut q = Queue::new();
    let count = q.load_playlist_text("", "/h");
    assert_eq!(count, 0);
    assert_eq!(q.songs().len(), 0);
}
