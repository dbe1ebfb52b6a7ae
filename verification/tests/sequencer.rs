use cramp::queue::{LoopMode, Queue};
use cramp::song::Song;
use cramp::Handle;

fn song(path: &str) -> Song {
    Song::new(path.to_string())
}

/// Load playlist [A, B, C] with C excluded from shuffle, queue
/// everything, and advance three times under Playlist loop with
/// shuffle off: the bag holds only the eligible songs and refills to
/// them, so the played order is A, B, A.
#[test]
fn playlist_loop_refills_eligible_only() {
    let mut q = Queue::new();
    let a = q.add_song(song("a.mp3"));
    let b = q.add_song(song("b.mp3"));
    let _c = q.add_song(song("c.mp3").no_shuffle(true));
    q.set_loop_mode(LoopMode::Playlist);
    q.queue_all();

    q.advance();
    assert_eq!(q.current_id(), Some(a));
    q.advance();
    assert_eq!(q.current_id(), Some(b));
    q.advance();
    assert_eq!(q.current_id(), Some(a));
}

/// set_next wins the very next advance even when the pinned song is
/// excluded from shuffle.
#[test]
fn set_next_beats_queue_and_bag() {
    let mut q = Queue::new();
    let a = q.add_song(song("a.mp3"));
    let _b = q.add_song(song("b.mp3"));
    let c = q.add_song(song("c.mp3").no_shuffle(true));
    q.queue_all();
    q.play(a);
    assert_eq!(q.current_id(), Some(a));

    q.set_next(c);
    q.advance();
    assert_eq!(q.current_id(), Some(c));
}

/// User-queued songs play before the bag and in FIFO order.
#[test]
fn user_queue_fifo_before_bag() {
    let mut q = Queue::new();
    let a = q.add_song(song("a.mp3"));
    let b = q.add_song(song("b.mp3"));
    let c = q.add_song(song("c.mp3"));
    q.queue_all();

    q.queue(b, false);
    q.queue(c, false);
    q.advance();
    assert_eq!(q.current_id(), Some(b));
    q.advance();
    assert_eq!(q.current_id(), Some(c));
    q.advance();
    assert_eq!(q.current_id(), Some(a));
}

/// queue with front=true inserts at the head of the user queue.
#[test]
fn queue_front_inserts_at_head() {
    let mut q = Queue::new();
    let _a = q.add_song(song("a.mp3"));
    let b = q.add_song(song("b.mp3"));
    let c = q.add_song(song("c.mp3"));

    q.queue(b, false);
    q.queue(c, true);
    q.advance();
    assert_eq!(q.current_id(), Some(c));
    q.advance();
    assert_eq!(q.current_id(), Some(b));
}

/// previous followed by advance restores the interrupted song.
#[test]
fn previous_then_advance_round_trip() {
    let mut q = Queue::new();
    let a = q.add_song(song("a.mp3"));
    let b = q.add_song(song("b.mp3"));
    let _ = (a, b);
    q.queue_all();

    q.advance();
    q.advance();
    assert_eq!(q.current_id(), Some(b));
    q.previous();
    assert_eq!(q.current_id(), Some(a));
    q.advance();
    assert_eq!(q.current_id(), Some(b));
}

/// previous on an empty history changes nothing.
#[test]
fn previous_with_empty_history_is_noop() {
    let mut q = Queue::new();
    let a = q.add_song(song("a.mp3"));
    q.queue_all();
    q.advance();
    assert_eq!(q.current_id(), Some(a));
    q.previous();
    assert_eq!(q.current_id(), Some(a));
}

/// The history is a bounded ring: after playing more songs than it
/// holds, stepping back stops at its capacity, the oldest entries
/// having been evicted first.
#[test]
fn history_evicts_oldest_at_capacity() {
    let mut q = Queue::new();
    q.set_loop_mode(LoopMode::Off);
    let mut handles: Vec<Handle> = Vec::new();
    for i in 0..34 {
        let h = q.add_song(song(&format!("s{i}.mp3")));
        handles.push(h);
    }
    q.queue_all();
    for _ in 0..34 {
        q.advance();
    }
    // Everything was played; the last song is current, the 33 before
    // it went to the history, of which the ring keeps the last 32.
    assert_eq!(q.current_id(), Some(handles[33]));
    for k in (1..33).rev() {
        q.previous();
        assert_eq!(q.current_id(), Some(handles[k]));
    }
    // handles[0] was evicted: one more previous is a no-op.
    q.previous();
    assert_eq!(q.current_id(), Some(handles[1]));
}

/// Toggling shuffle off rebuilds the bag in load order after the
/// current song; toggling it back on keeps exactly that set.
#[test]
fn shuffle_toggle_preserves_pending_set() {
    let mut q = Queue::new();
    let mut handles: Vec<Handle> = Vec::new();
    for i in 0..6 {
        handles.push(q.add_song(song(&format!("s{i}.mp3"))));
    }
    q.queue_all();
    q.advance();
    assert_eq!(q.current_id(), Some(handles[0]));

    q.set_shuffle(true);
    q.set_shuffle(false);
    let mut after_off: Vec<usize> = q.upcoming().iter().map(|h| h.id).collect();
    q.set_shuffle(true);
    let mut after_on: Vec<usize> = q.upcoming().iter().map(|h| h.id).collect();
    after_off.sort();
    after_on.sort();
    assert_eq!(after_off, after_on);
    // The rebuilt bag continues after the current song, in load order.
    assert_eq!(
        after_off,
        vec![handles[1].id, handles[2].id, handles[3].id, handles[4].id, handles[5].id]
    );
}

/// Leaving shuffle mid-playback rotates the load order to continue
/// right after the current song.
#[test]
fn shuffle_off_rotates_after_current() {
    let mut q = Queue::new();
    let mut handles: Vec<Handle> = Vec::new();
    for i in 0..4 {
        handles.push(q.add_song(song(&format!("s{i}.mp3"))));
    }
    q.queue_all();
    q.advance();
    q.advance();
    q.advance();
    assert_eq!(q.current_id(), Some(handles[2]));
    q.set_shuffle(true);
    q.set_shuffle(false);
    let order: Vec<usize> = q.upcoming().iter().map(|h| h.id).collect();
    assert_eq!(order, vec![handles[3].id, handles[0].id, handles[1].id]);
}

/// Track loop re-arms the same song on every advance.
#[test]
fn track_loop_rearms_current() {
    let mut q = Queue::new();
    let a = q.add_song(song("a.mp3"));
    let _b = q.add_song(song("b.mp3"));
    q.queue_all();
    q.advance();
    assert_eq!(q.current_id(), Some(a));
    q.set_loop_mode(LoopMode::Track);
    q.advance();
    assert_eq!(q.current_id(), Some(a));
    q.advance();
    assert_eq!(q.current_id(), Some(a));
}

/// With looping off, exhaustion is a terminal, non-error state.
#[test]
fn loop_off_exhaustion_stops_playback() {
    let mut q = Queue::new();
    let _a = q.add_song(song("a.mp3"));
    q.set_loop_mode(LoopMode::Off);
    q.queue_all();
    q.advance();
    assert!(q.current_id().is_some());
    q.advance();
    assert_eq!(q.current_id(), None);
    q.advance();
    assert_eq!(q.current_id(), None);
}

/// An override aimed at an already-registered path pins that very
/// handle instead of synthesizing a duplicate entry.
#[test]
fn next_override_finds_canonical_handle() {
    let mut q = Queue::new();
    let a = q.add_song(song("a.mp3").next(Some("b.mp3".to_string())));
    let b = q.add_song(song("b.mp3"));
    q.set_loop_mode(LoopMode::Off);
    q.queue(a, false);
    q.advance();
    assert_eq!(q.current_id(), Some(a));
    let before = q.songs().len();
    q.advance();
    assert_eq!(q.current_id(), Some(b));
    assert_eq!(q.songs().len(), before);
}

/// An override aimed at an unknown path synthesizes a song for it;
/// the synthesized entry is not user-added, so it never reaches the
/// user listing or the refill.
#[test]
fn next_override_synthesizes_missing_song() {
    let mut q = Queue::new();
    let a = q.add_song(song("a.mp3").next(Some("ghost.mp3".to_string())));
    q.set_loop_mode(LoopMode::Off);
    q.queue(a, false);
    q.advance();
    assert_eq!(q.current_id(), Some(a));
    assert_eq!(q.songs().len(), 1);
    q.advance();
    let cur = q.current().expect("override should play");
    assert_eq!(cur.path, "ghost.mp3");
    assert!(!cur.user_added);
    assert_eq!(q.songs().len(), 1);
}

/// Removing a song purges it everywhere: a removed pin never plays.
#[test]
fn remove_song_purges_pin_and_queues() {
    let mut q = Queue::new();
    let a = q.add_song(song("a.mp3"));
    let b = q.add_song(song("b.mp3"));
    q.queue_all();
    q.set_next(b);
    q.queue(b, false);
    q.remove_song(b);
    q.advance();
    assert_eq!(q.current_id(), Some(a));
    let upcoming = q.upcoming();
    assert!(upcoming.iter().all(|h| *h != b));
}

/// play() jumps straight to the handle and removes it from whatever
/// container held it.
#[test]
fn play_jumps_and_purges() {
    let mut q = Queue::new();
    let a = q.add_song(song("a.mp3"));
    let b = q.add_song(song("b.mp3"));
    q.queue_all();
    q.queue(b, false);
    q.play(b);
    assert_eq!(q.current_id(), Some(b));
    // b is pending nowhere else.
    assert!(q.upcoming().iter().all(|h| *h != b));
    // the interrupted "nothing" pushed no history entry.
    q.advance();
    assert_eq!(q.current_id(), Some(a));
}

/// Peeking at the next song never mutates the state.
#[test]
fn peek_next_is_pure() {
    let mut q = Queue::new();
    let a = q.add_song(song("a.mp3"));
    let b = q.add_song(song("b.mp3"));
    q.queue_all();
    q.advance();
    assert_eq!(q.current_id(), Some(a));
    let n1 = q.next().map(|s| s.path.clone());
    let n2 = q.next().map(|s| s.path.clone());
    assert_eq!(n1, n2);
    q.advance();
    assert_eq!(q.current_id(), Some(b));
    assert_eq!(n1.as_deref(), Some("b.mp3"));
}

/// The loop mode cycles Off, Playlist, Track and back.
#[test]
fn loop_mode_cycles() {
    let mut q = Queue::new();
    assert_eq!(q.loop_mode(), LoopMode::Playlist);
    assert_eq!(q.cycle_loop_mode(), LoopMode::Track);
    assert_eq!(q.cycle_loop_mode(), LoopMode::Off);
    assert_eq!(q.cycle_loop_mode(), LoopMode::Playlist);
}

/// The playlist listing is the pending order without the immediate
/// next entry.
#[test]
fn playlist_skips_immediate_next() {
    let mut q = Queue::new();
    let _a = q.add_song(song("a.mp3"));
    let _b = q.add_song(song("b.mp3"));
    let _c = q.add_song(song("c.mp3"));
    q.queue_all();
    let up = q.upcoming();
    let pl = q.playlist();
    assert_eq!(pl.len() + 1, up.len());
    assert_eq!(&up[1..], &pl[..]);
}

/// Reshuffling the bag keeps exactly the same pending songs.
#[test]
fn reshuffle_keeps_pending_multiset() {
    let mut q = Queue::new();
    for i in 0..16 {
        q.add_song(song(&format!("s{i}.mp3")));
    }
    q.queue_all();
    let mut before: Vec<usize> = q.upcoming().iter().map(|h| h.id).collect();
    q.shuffle();
    let mut after: Vec<usize> = q.upcoming().iter().map(|h| h.id).collect();
    before.sort();
    after.sort();
    assert_eq!(before, after);
}

/// Under Track loop an advance re-arms the current song, so stepping
/// back and advancing does not return to the interrupted one: the
/// round trip needs a non-Track loop mode.
#[test]
fn track_loop_blocks_previous_round_trip() {
    let mut q = Queue::new();
    let a = q.add_song(song("a.mp3"));
    let b = q.add_song(song("b.mp3"));
    let _ = b;
    q.queue_all();
    q.advance();
    q.advance();
    q.set_loop_mode(LoopMode::Track);
    q.previous();
    assert_eq!(q.current_id(), Some(a));
    q.advance();
    assert_eq!(q.current_id(), Some(a));
}

/// A shuffled refill serves some permutation of exactly the eligible
/// songs: after exhausting the bag once, the new current song and the
/// refilled bag together hold each eligible song exactly once.
#[test]
fn shuffled_refill_is_a_permutation_of_eligible() {
    let mut q = Queue::new();
    let mut ids: Vec<usize> = Vec::new();
    for i in 0..5 {
        ids.push(q.add_song(song(&format!("s{i}.mp3"))).id);
    }
    let _excluded = q.add_song(song("x.mp3").no_shuffle(true));
    q.set_shuffle(true);
    q.queue_all();
    for _ in 0..6 {
        q.advance();
    }
    // The sixth advance found the bag empty and refilled it.
    let mut served: Vec<usize> = vec![q.current_id().expect("refill resolved a song").id];
    served.extend(q.upcoming().iter().map(|h| h.id));
    served.sort();
    assert_eq!(served, ids);
}

/// The bounded preview truncates the pending order.
#[test]
fn upcoming_preview_truncates() {
    let mut q = Queue::new();
    for i in 0..4 {
        q.add_song(song(&format!("s{i}.mp3")));
    }
    q.queue_all();
    let full = q.upcoming();
    let two = q.upcoming_n(2);
    assert_eq!(&full[..2], &two[..]);
    assert_eq!(q.upcoming_n(10), full);
}

/// Opening a file registers it and plays it at once; the interrupted
/// song goes to the history.
#[test]
fn open_file_registers_and_plays() {
    let mut q = Queue::new();
    let a = q.add_song(song("a.mp3"));
    q.queue_all();
    q.advance();
    assert_eq!(q.current_id(), Some(a));
    let h = q.open_file("/tmp/fresh.ogg".to_string());
    assert_eq!(q.current_id(), Some(h));
    assert_eq!(q.get(h).name, "fresh.ogg");
    q.previous();
    assert_eq!(q.current_id(), Some(a));
}

/// The search filter keeps the user-added songs whose path contains
/// the search text, ignoring the path's ASCII case.
#[test]
fn filter_songs_matches_case_insensitively() {
    let mut q = Queue::new();
    let a = q.add_song(song("Music/ROCK/Anthem.mp3"));
    let b = q.add_song(song("music/jazz/smooth.mp3"));
    let all = q.filter_songs(&None);
    assert_eq!(all, vec![a, b]);
    let rock = q.filter_songs(&Some("rock".to_string()));
    assert_eq!(rock, vec![a]);
    let music = q.filter_songs(&Some("music/".to_string()));
    assert_eq!(music, vec![a, b]);
    let none = q.filter_songs(&Some("classical".to_string()));
    assert!(none.is_empty());
}
