use cramp::registry::Registry;
use cramp::song::Song;

#[test]
fn insert_then_get_round_trip() {
    let mut r = Registry::new();
    let a = r.insert(Song::new("a.mp3".to_string()));
    let b = r.insert(Song::new("b.mp3".to_string()));
    assert_eq!(r.get(a).path, "a.mp3");
    assert_eq!(r.get(b).path, "b.mp3");
    assert_eq!(r.slot_count(), 2);
}

/// A removed slot is tombstoned, never reused: later inserts get fresh
/// handles and the listings skip the tombstone.
#[test]
fn remove_tombstones_without_reuse() {
    let mut r = Registry::new();
    let a = r.insert(Song::new("a.mp3".to_string()));
    let b = r.insert(Song::new("b.mp3".to_string()));
    r.remove(a);
    let c = r.insert(Song::new("c.mp3".to_string()));
    assert_ne!(c, a);
    assert_ne!(c, b);
    assert_eq!(r.slot_count(), 3);
    let live = r.collect_live();
    assert_eq!(live, vec![b, c]);
}

#[test]
fn listings_filter_by_origin_and_eligibility() {
    let mut r = Registry::new();
    let a = r.insert(Song::new("a.mp3".to_string()));
    let b = r.insert(Song::new("b.mp3".to_string()).no_shuffle(true));
    let mut synth = Song::new("x.mp3".to_string());
    synth.user_added = false;
    let c = r.insert(synth);
    assert_eq!(r.collect_live(), vec![a, b, c]);
    assert_eq!(r.collect_user_added(), vec![a, b]);
    assert_eq!(r.collect_eligible(), vec![a]);
}

#[test]
fn find_path_returns_first_live_match() {
    let mut r = Registry::new();
    let a = r.insert(Song::new("dup.mp3".to_string()));
    let _b = r.insert(Song::new("dup.mp3".to_string()));
    assert_eq!(r.find_path("dup.mp3"), Some(a));
    assert_eq!(r.find_path("missing.mp3"), None);
    r.remove(a);
    assert_eq!(r.find_path("dup.mp3"), Some(_b));
}
