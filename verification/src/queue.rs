use vstd::prelude::*;

use rand::seq::SliceRandom;

use crate::history::{push_history, History, HISTORY_CAPACITY};
use crate::parse::{lemma_parse_from_user_added, parse_playlist, parse_playlist_songs, spec_lines};
use crate::registry::{
    eligible, eligible_handles, first_with_path, live, song_of, user_added_upto, Registry,
};
use crate::song::{file_name_of, Song, SongM};
use crate::text::{ascii_lower, contains_seq, matches_search};
use crate::util::{lemma_remove_all_members, remove_all, remove_handle};
use crate::Handle;

verus! {

/// What refills the bag once it runs out.
#[derive(Clone, Copy, PartialEq, Eq, Structural, Debug)]
pub enum LoopMode {
    /// Exhaustion is terminal: playback stops.
    Off,
    /// The current song is re-armed on every advance.
    Track,
    /// The bag is refilled from the eligible songs when exhausted.
    Playlist,
}

/// The single-slot override of what plays right after the current song.
#[derive(Clone, Copy, PartialEq, Eq, Structural, Debug)]
pub struct PinnedNext {
    pub handle: Handle,
    /// True for a user pin or an override; false for the implicit pin
    /// that `previous` leaves behind.
    pub explicit: bool,
}

/// Mathematical state of the sequencer.
#[verifier::ext_equal]
pub ghost struct Model {
    /// Registry slots; the index of a slot is its handle's id.
    pub songs: Seq<Option<SongM>>,
    /// Remaining automatic playback order, next at the front.
    pub bag: Seq<Handle>,
    /// User-queued songs, next at the front.
    pub user_queue: Seq<Handle>,
    pub pinned: Option<PinnedNext>,
    pub current: Option<Handle>,
    /// Songs played to completion, most recent last.
    pub history: Seq<Handle>,
    pub shuffle: bool,
    pub loop_mode: LoopMode,
}

impl Model {
    /// Every handle the sequencer holds is live, bag entries are
    /// eligible, and the history is within its capacity.
    pub open spec fn wf(self) -> bool {
        &&& forall|i: int| 0 <= i < self.bag.len() ==> eligible(self.songs, #[trigger] self.bag[i])
        &&& forall|i: int|
            0 <= i < self.user_queue.len() ==> live(self.songs, #[trigger] self.user_queue[i])
        &&& (self.pinned matches Some(p) ==> live(self.songs, p.handle))
        &&& (self.current matches Some(c) ==> live(self.songs, c))
        &&& forall|i: int|
            0 <= i < self.history.len() ==> live(self.songs, #[trigger] self.history[i])
        &&& self.history.len() <= HISTORY_CAPACITY
    }

    /// The pin as a (zero- or one-element) sequence.
    pub open spec fn pin_seq(self) -> Seq<Handle> {
        match self.pinned {
            Some(p) => seq![p.handle],
            None => Seq::<Handle>::empty(),
        }
    }

    /// Everything pending, in the order `advance` would serve it:
    /// pin first, then the user queue, then the bag.
    pub open spec fn upcoming(self) -> Seq<Handle> {
        self.pin_seq() + self.user_queue + self.bag
    }

    /// `set_next(h)`: pin `h`, last write wins.
    pub open spec fn spec_set_next(self, h: Handle) -> Model {
        Model { pinned: Some(PinnedNext { handle: h, explicit: true }), ..self }
    }

    /// `queue(h, front)`: push onto the user queue.
    pub open spec fn spec_queue(self, h: Handle, front: bool) -> Model {
        Model {
            user_queue: if front {
                seq![h] + self.user_queue
            } else {
                self.user_queue.push(h)
            },
            ..self
        }
    }

    /// `play(h)`: jump straight to `h`.  The handle is purged from the
    /// bag, the user queue and the pin so that it is pending nowhere
    /// else; the song that was playing goes to the history.
    pub open spec fn spec_play(self, h: Handle) -> Model {
        Model {
            bag: remove_all(self.bag, h),
            user_queue: remove_all(self.user_queue, h),
            pinned: match self.pinned {
                Some(p) => if p.handle == h {
                    None
                } else {
                    Some(p)
                },
                None => None,
            },
            history: match self.current {
                Some(c) => push_history(self.history, c),
                None => self.history,
            },
            current: Some(h),
            ..self
        }
    }

    /// `previous()`: step back to the most recent history entry; the
    /// interrupted song becomes an implicit pin so the next `advance`
    /// returns to it.  A no-op when the history is exhausted.
    pub open spec fn spec_previous(self) -> Model {
        if self.history.len() == 0 {
            self
        } else {
            Model {
                history: self.history.drop_last(),
                current: Some(self.history.last()),
                pinned: match self.current {
                    Some(c) => Some(PinnedNext { handle: c, explicit: false }),
                    None => self.pinned,
                },
                ..self
            }
        }
    }

    /// `queue_all()`: rebuild the bag from every eligible song in load
    /// order, dropping the user queue and the pin.
    pub open spec fn spec_queue_all(self) -> Model {
        Model {
            bag: eligible_handles(self.songs),
            user_queue: Seq::<Handle>::empty(),
            pinned: None,
            ..self
        }
    }

    /// Whether an advance would re-arm the current song (Track loop).
    pub open spec fn track_hold(self) -> bool {
        self.loop_mode == LoopMode::Track && self.current is Some
    }

    /// Whether an advance would have to refill the bag: nothing is
    /// pending and the loop mode asks for a refill.
    pub open spec fn refill_case(self) -> bool {
        &&& !self.track_hold()
        &&& self.pinned is None
        &&& self.user_queue.len() == 0
        &&& self.bag.len() == 0
        &&& self.loop_mode == LoopMode::Playlist
    }

    /// What an advance resolves to, in strict priority order: the pin,
    /// then the user queue, then the bag, then, under Playlist loop,
    /// the refilled bag `refill`.  `None` is the terminal stop state.
    pub open spec fn resolved_next(self, refill: Seq<Handle>) -> Option<Handle> {
        if self.pinned is Some {
            Some(self.pinned->Some_0.handle)
        } else if self.user_queue.len() > 0 {
            Some(self.user_queue[0])
        } else if self.bag.len() > 0 {
            Some(self.bag[0])
        } else if self.loop_mode == LoopMode::Playlist && refill.len() > 0 {
            Some(refill[0])
        } else {
            None
        }
    }

    /// The bag after the resolution step of an advance.
    pub open spec fn bag_after_resolve(self, refill: Seq<Handle>) -> Seq<Handle> {
        if self.pinned is Some || self.user_queue.len() > 0 {
            self.bag
        } else if self.bag.len() > 0 {
            self.bag.drop_first()
        } else if self.loop_mode == LoopMode::Playlist && refill.len() > 0 {
            refill.drop_first()
        } else {
            self.bag
        }
    }

    /// The user queue after the resolution step of an advance.
    pub open spec fn queue_after_resolve(self) -> Seq<Handle> {
        if self.pinned is Some {
            self.user_queue
        } else if self.user_queue.len() > 0 {
            self.user_queue.drop_first()
        } else {
            self.user_queue
        }
    }

    /// `advance()`, with the refill order given explicitly: under Track
    /// loop the state is untouched; otherwise the finished song goes to
    /// the history, the next song is resolved (pin, then user queue,
    /// then bag, then `refill` under Playlist loop), and the pin is
    /// recomputed from the new current song's override.
    pub open spec fn spec_advance_with(self, refill: Seq<Handle>) -> Model {
        if self.track_hold() {
            self
        } else {
            let resolved = self.resolved_next(refill);
            Model {
                songs: songs_after_repin(self.songs, resolved),
                bag: self.bag_after_resolve(refill),
                user_queue: self.queue_after_resolve(),
                pinned: pin_after_repin(self.songs, resolved),
                current: resolved,
                history: match self.current {
                    Some(c) => push_history(self.history, c),
                    None => self.history,
                },
                shuffle: self.shuffle,
                loop_mode: self.loop_mode,
            }
        }
    }

    /// `advance()` when no randomized refill happens: the refill order
    /// is the eligible songs in load order.
    pub open spec fn spec_advance(self) -> Model {
        self.spec_advance_with(eligible_handles(self.songs))
    }

    /// `set_shuffle(false)`: the bag rebuilt as the eligible songs in
    /// load order, rotated to continue right after the current song's
    /// canonical position; the full load order when the current song's
    /// path is not found.
    pub open spec fn rebuilt_bag(self) -> Seq<Handle> {
        let e = eligible_handles(self.songs);
        match self.current {
            Some(c) => if live(self.songs, c) {
                match first_idx_with_path(self.songs, e, song_of(self.songs, c).path, 0) {
                    Some(j) => e.subrange(j + 1, e.len() as int) + e.take(j),
                    None => e,
                }
            } else {
                e
            },
            None => e,
        }
    }

    /// `load_playlist_text(text, home)`: register every song the
    /// playlist text describes, in order, and append the handles of the
    /// shuffle-eligible ones to the bag.  Nothing else changes.
    pub open spec fn spec_load_playlist(self, text: Seq<char>, home: Seq<char>) -> Model {
        let parsed = parse_playlist_songs(text, home);
        Model {
            songs: self.songs + parsed.map_values(|s: SongM| Some(s)),
            bag: self.bag + queued_handles(parsed, self.songs.len() as int),
            ..self
        }
    }

    /// `remove_song(h)`: tombstone the slot and purge the handle from
    /// every container it might sit in.
    pub open spec fn spec_remove(self, h: Handle) -> Model {
        Model {
            songs: self.songs.update(h.id as int, None),
            bag: remove_all(self.bag, h),
            user_queue: remove_all(self.user_queue, h),
            history: remove_all(self.history, h),
            pinned: match self.pinned {
                Some(p) => if p.handle == h {
                    None
                } else {
                    Some(p)
                },
                None => None,
            },
            current: match self.current {
                Some(c) => if c == h {
                    None
                } else {
                    Some(c)
                },
                None => None,
            },
            ..self
        }
    }
}

/// The handles a freshly loaded batch of songs contributes to the bag:
/// one handle per parsed song that is not shuffle-excluded, in order,
/// counting slot ids up from `base`.
pub open spec fn queued_handles(parsed: Seq<SongM>, base: int) -> Seq<Handle>
    decreases parsed.len(),
{
    if parsed.len() == 0 {
        Seq::<Handle>::empty()
    } else {
        (if !parsed[0].no_shuffle {
            seq![Handle { id: base as usize }]
        } else {
            Seq::<Handle>::empty()
        }) + queued_handles(parsed.drop_first(), base + 1)
    }
}

proof fn lemma_queued_push(parsed: Seq<SongM>, x: SongM, base: int)
    ensures
        queued_handles(parsed.push(x), base) == queued_handles(parsed, base) + (if !x.no_shuffle {
            seq![Handle { id: (base + parsed.len()) as usize }]
        } else {
            Seq::<Handle>::empty()
        }),
    decreases parsed.len(),
{
    if parsed.len() == 0 {
        let p1 = parsed.push(x);
        assert(p1.drop_first() =~= Seq::<SongM>::empty());
        assert(queued_handles(p1.drop_first(), base + 1) =~= Seq::<Handle>::empty());
        assert(queued_handles(parsed, base) =~= Seq::<Handle>::empty());
        assert(p1[0] == x);
        if !x.no_shuffle {
            assert(queued_handles(p1, base) =~= queued_handles(parsed, base) + seq![Handle {
                id: base as usize,
            }]);
        } else {
            assert(queued_handles(p1, base) =~= queued_handles(parsed, base));
        }
    } else {
        assert(parsed.push(x).drop_first() =~= parsed.drop_first().push(x));
        lemma_queued_push(parsed.drop_first(), x, base + 1);
        assert(queued_handles(parsed.push(x), base) =~= queued_handles(parsed, base) + (
        if !x.no_shuffle {
            seq![Handle { id: (base + parsed.len()) as usize }]
        } else {
            Seq::<Handle>::empty()
        }));
    }
}

/// Every handle a loaded batch queues names one of its own user-added,
/// shuffle-included songs, so it is eligible.
proof fn lemma_queued_handles_eligible(songs: Seq<Option<SongM>>, parsed: Seq<SongM>, base: int)
    requires
        0 <= base,
        base + parsed.len() <= songs.len(),
        base + parsed.len() <= usize::MAX,
        forall|j: int| 0 <= j < parsed.len() ==> songs[base + j] == Some(#[trigger] parsed[j]),
        forall|j: int| 0 <= j < parsed.len() ==> (#[trigger] parsed[j]).user_added,
    ensures
        forall|k: int|
            0 <= k < queued_handles(parsed, base).len() ==> eligible(
                songs,
                #[trigger] queued_handles(parsed, base)[k],
            ),
    decreases parsed.len(),
{
    if parsed.len() > 0 {
        assert(forall|j: int|
            0 <= j < parsed.drop_first().len() ==> songs[base + 1 + j] == Some(
                #[trigger] parsed.drop_first()[j],
            ) && parsed.drop_first()[j].user_added) by {
            assert(forall|j: int|
                0 <= j < parsed.drop_first().len() ==> parsed.drop_first()[j] == parsed[j + 1]);
        }
        lemma_queued_handles_eligible(songs, parsed.drop_first(), base + 1);
        let qh = queued_handles(parsed, base);
        let rest = queued_handles(parsed.drop_first(), base + 1);
        assert forall|k: int| 0 <= k < qh.len() implies eligible(songs, qh[k]) by {
            if !parsed[0].no_shuffle {
                if k == 0 {
                    assert(songs[base] == Some(parsed[0]));
                    assert(parsed[0].user_added);
                    assert(base as usize == base);
                    assert(eligible(songs, Handle { id: base as usize }));
                } else {
                    assert(qh[k] == rest[k - 1]);
                }
            } else {
                assert(qh[k] == rest[k]);
            }
        }
    }
}

/// Whether a song survives the search filter: no search keeps every
/// song; a search keeps those whose lowered path contains it.
pub open spec fn keep_handle(
    songs: Seq<Option<SongM>>,
    h: Handle,
    search: Option<Seq<char>>,
) -> bool {
    match search {
        None => true,
        Some(s) => contains_seq(ascii_lower(song_of(songs, h).path), s),
    }
}

/// The handles of `hs` whose songs survive the search filter, in order.
pub open spec fn filter_handles(
    songs: Seq<Option<SongM>>,
    hs: Seq<Handle>,
    search: Option<Seq<char>>,
) -> Seq<Handle>
    decreases hs.len(),
{
    if hs.len() == 0 {
        Seq::<Handle>::empty()
    } else {
        (if keep_handle(songs, hs[0], search) {
            seq![hs[0]]
        } else {
            Seq::<Handle>::empty()
        }) + filter_handles(songs, hs.drop_first(), search)
    }
}

proof fn lemma_filter_push(
    songs: Seq<Option<SongM>>,
    hs: Seq<Handle>,
    x: Handle,
    search: Option<Seq<char>>,
)
    ensures
        filter_handles(songs, hs.push(x), search) == filter_handles(songs, hs, search) + (
        if keep_handle(songs, x, search) {
            seq![x]
        } else {
            Seq::<Handle>::empty()
        }),
    decreases hs.len(),
{
    if hs.len() == 0 {
        let p1 = hs.push(x);
        assert(p1.drop_first() =~= Seq::<Handle>::empty());
        assert(filter_handles(songs, p1.drop_first(), search) =~= Seq::<Handle>::empty());
        assert(filter_handles(songs, hs, search) =~= Seq::<Handle>::empty());
        assert(p1[0] == x);
        assert(filter_handles(songs, p1, search) =~= filter_handles(songs, hs, search) + (
        if keep_handle(songs, x, search) {
            seq![x]
        } else {
            Seq::<Handle>::empty()
        }));
    } else {
        assert(hs.push(x).drop_first() =~= hs.drop_first().push(x));
        lemma_filter_push(songs, hs.drop_first(), x, search);
        assert(filter_handles(songs, hs.push(x), search) =~= filter_handles(songs, hs, search)
            + (if keep_handle(songs, x, search) {
            seq![x]
        } else {
            Seq::<Handle>::empty()
        }));
    }
}

/// The override path carried by the song an advance just resolved to.
pub open spec fn override_path(songs: Seq<Option<SongM>>, cur: Option<Handle>) -> Option<Seq<char>> {
    match cur {
        Some(c) => if live(songs, c) {
            song_of(songs, c).next
        } else {
            None
        },
        None => None,
    }
}

/// A song synthesized to satisfy an override aimed at `path`: named
/// after the path, not user-added, so it never feeds the refill.
pub open spec fn synth_song(path: Seq<char>) -> SongM {
    SongM {
        name: file_name_of(path),
        path,
        next: None,
        no_shuffle: false,
        user_added: false,
        duration: None,
    }
}

/// The registry after the pin-recompute step of an advance: unchanged,
/// unless the new current song's override names a path no live song
/// sits at, in which case one song is synthesized for it.
pub open spec fn songs_after_repin(songs: Seq<Option<SongM>>, cur: Option<Handle>) -> Seq<
    Option<SongM>,
> {
    match override_path(songs, cur) {
        Some(p) => match first_with_path(songs, p) {
            Some(_) => songs,
            None => songs.push(Some(synth_song(p))),
        },
        None => songs,
    }
}

/// The pin after the pin-recompute step of an advance: the canonical
/// handle for the new current song's override path (synthesized when
/// missing), or no pin at all when there is no override.
pub open spec fn pin_after_repin(songs: Seq<Option<SongM>>, cur: Option<Handle>) -> Option<
    PinnedNext,
> {
    match override_path(songs, cur) {
        Some(p) => match first_with_path(songs, p) {
            Some(h) => Some(PinnedNext { handle: h, explicit: true }),
            None => Some(
                PinnedNext { handle: Handle { id: songs.len() as usize }, explicit: true },
            ),
        },
        None => None,
    }
}

/// The first position at or after `i` of `order` whose handle's song
/// sits at `path`.
pub open spec fn first_idx_with_path(
    songs: Seq<Option<SongM>>,
    order: Seq<Handle>,
    path: Seq<char>,
    i: int,
) -> Option<int>
    decreases order.len() - i,
{
    if i < 0 || i >= order.len() {
        None
    } else if live(songs, order[i]) && song_of(songs, order[i]).path == path {
        Some(i)
    } else {
        first_idx_with_path(songs, order, path, i + 1)
    }
}

/// A found rotation point lies within the searched order.
proof fn lemma_first_idx_bounds(
    songs: Seq<Option<SongM>>,
    order: Seq<Handle>,
    path: Seq<char>,
    i: int,
)
    ensures
        first_idx_with_path(songs, order, path, i) matches Some(j) ==> i <= j < order.len(),
    decreases order.len() - i,
{
    if 0 <= i < order.len() {
        lemma_first_idx_bounds(songs, order, path, i + 1);
    }
}

/// Every entry of the rebuilt bag comes from the eligible load order.
pub proof fn lemma_rebuilt_bag_members(m: Model)
    ensures
        forall|i: int|
            0 <= i < m.rebuilt_bag().len() ==> eligible_handles(m.songs).contains(
                #[trigger] m.rebuilt_bag()[i],
            ),
{
    let e = eligible_handles(m.songs);
    let b = m.rebuilt_bag();
    assert forall|i: int| 0 <= i < b.len() implies e.contains(b[i]) by {
        match m.current {
            Some(c) => {
                if live(m.songs, c) {
                    match first_idx_with_path(m.songs, e, song_of(m.songs, c).path, 0) {
                        Some(j) => {
                            lemma_first_idx_bounds(m.songs, e, song_of(m.songs, c).path, 0);
                            if i < e.len() - j - 1 {
                                assert(b[i] == e[j + 1 + i]);
                            } else {
                                assert(b[i] == e[i - (e.len() - j - 1)]);
                            }
                        },
                        None => {
                            assert(b[i] == e[i]);
                        },
                    }
                } else {
                    assert(b[i] == e[i]);
                }
            },
            None => {
                assert(b[i] == e[i]);
            },
        }
    }
}

/// Two sequences with equal multisets have the same members.
proof fn lemma_multiset_members(a: Seq<Handle>, b: Seq<Handle>)
    requires
        a.to_multiset() == b.to_multiset(),
    ensures
        forall|i: int| 0 <= i < b.len() ==> a.contains(#[trigger] b[i]),
{
    broadcast use vstd::seq_lib::group_to_multiset_ensures;

    assert forall|i: int| 0 <= i < b.len() implies a.contains(b[i]) by {
        assert(b.contains(b[i]));
        assert(b.to_multiset().count(b[i]) > 0);
        assert(a.to_multiset().count(b[i]) > 0);
    }
}

/// Relies on rand::seq::SliceRandom::shuffle: an in-place Fisher-Yates
/// pass that only swaps slice elements, so the vector afterwards holds
/// exactly the same handles, rearranged.  Nothing is promised of the
/// randomized order itself.
#[verifier::external_body]
fn shuffle_handles(v: &mut Vec<Handle>)
    ensures
        final(v)@.to_multiset() == old(v)@.to_multiset(),
{
    v.shuffle(&mut rand::thread_rng());
}

/// The playback sequencer: song registry, priority bag, user queue,
/// pinned next, bounded history, and the shuffle / loop flags, as one
/// unit.  Callers are expected to guard one instance with one lock.
pub struct Queue {
    songs: Registry,
    bag: Vec<Handle>,
    user_queue: Vec<Handle>,
    pinned: Option<PinnedNext>,
    current: Option<Handle>,
    history: History,
    shuffle: bool,
    loop_mode: LoopMode,
}

impl Default for Queue {
    /// Same state as `Queue::new`.
    fn default() -> (q: Queue)
        ensures
            q@ == (Model {
                songs: Seq::<Option<SongM>>::empty(),
                bag: Seq::<Handle>::empty(),
                user_queue: Seq::<Handle>::empty(),
                pinned: None,
                current: None,
                history: Seq::<Handle>::empty(),
                shuffle: false,
                loop_mode: LoopMode::Playlist,
            }),
            q@.wf(),
    {
        Queue::new()
    }
}

impl View for Queue {
    type V = Model;

    closed spec fn view(&self) -> Model {
        Model {
            songs: self.songs@,
            bag: self.bag@,
            user_queue: self.user_queue@,
            pinned: self.pinned,
            current: self.current,
            history: self.history@,
            shuffle: self.shuffle,
            loop_mode: self.loop_mode,
        }
    }
}

impl Queue {
    /// An empty sequencer: no songs, nothing pending, shuffle off,
    /// playlist looping on (the bag refills when it runs out).
    pub fn new() -> (q: Queue)
        ensures
            q@ == (Model {
                songs: Seq::<Option<SongM>>::empty(),
                bag: Seq::<Handle>::empty(),
                user_queue: Seq::<Handle>::empty(),
                pinned: None,
                current: None,
                history: Seq::<Handle>::empty(),
                shuffle: false,
                loop_mode: LoopMode::Playlist,
            }),
            q@.wf(),
    {
        let q = Queue {
            songs: Registry::new(),
            bag: Vec::new(),
            user_queue: Vec::new(),
            pinned: None,
            current: None,
            history: History::new(),
            shuffle: false,
            loop_mode: LoopMode::Playlist,
        };
        proof {
            assert(q@ =~= (Model {
                songs: Seq::<Option<SongM>>::empty(),
                bag: Seq::<Handle>::empty(),
                user_queue: Seq::<Handle>::empty(),
                pinned: None,
                current: None,
                history: Seq::<Handle>::empty(),
                shuffle: false,
                loop_mode: LoopMode::Playlist,
            }));
        }
        q
    }

    /// Read the song a live handle names.
    pub fn get(&self, h: Handle) -> (s: &Song)
        requires
            live(self@.songs, h),
        ensures
            s@ == song_of(self@.songs, h),
    {
        self.songs.get(h)
    }

    /// The song currently bound to the audio engine, if any.
    pub fn current(&self) -> (r: Option<&Song>)
        requires
            self@.wf(),
        ensures
            r is Some <==> self@.current is Some,
            r matches Some(s) ==> self@.current matches Some(c) && s@ == song_of(self@.songs, c),
    {
        match self.current {
            Some(c) => Some(self.songs.get(c)),
            None => None,
        }
    }

    pub fn current_id(&self) -> (r: Option<Handle>)
        ensures
            r == self@.current,
    {
        self.current
    }

    pub fn shuffle_enabled(&self) -> (r: bool)
        ensures
            r == self@.shuffle,
    {
        self.shuffle
    }

    pub fn loop_mode(&self) -> (r: LoopMode)
        ensures
            r == self@.loop_mode,
    {
        self.loop_mode
    }

    /// Pure state change; takes effect on the next `advance`.
    pub fn set_loop_mode(&mut self, mode: LoopMode)
        ensures
            final(self)@ == (Model { loop_mode: mode, ..old(self)@ }),
    {
        self.loop_mode = mode;
        proof {
            assert(final(self)@ =~= (Model { loop_mode: mode, ..old(self)@ }));
        }
    }

    /// Step the loop mode through Off, Playlist, Track, in that order.
    pub fn cycle_loop_mode(&mut self) -> (r: LoopMode)
        ensures
            r == (match old(self)@.loop_mode {
                LoopMode::Off => LoopMode::Playlist,
                LoopMode::Playlist => LoopMode::Track,
                LoopMode::Track => LoopMode::Off,
            }),
            final(self)@ == (Model { loop_mode: r, ..old(self)@ }),
    {
        let next = match self.loop_mode {
            LoopMode::Off => LoopMode::Playlist,
            LoopMode::Playlist => LoopMode::Track,
            LoopMode::Track => LoopMode::Off,
        };
        self.loop_mode = next;
        proof {
            assert(final(self)@ =~= (Model { loop_mode: next, ..old(self)@ }));
        }
        next
    }

    /// Register a song without queueing it anywhere.
    pub fn add_song(&mut self, song: Song) -> (h: Handle)
        ensures
            final(self)@ == (Model {
                songs: old(self)@.songs.push(Some(song@)),
                ..old(self)@
            }),
            h.id == old(self)@.songs.len(),
            live(final(self)@.songs, h),
            song_of(final(self)@.songs, h) == song@,
            old(self)@.wf() ==> final(self)@.wf(),
    {
        let h = self.songs.insert(song);
        proof {
            assert(final(self)@ =~= (Model {
                songs: old(self)@.songs.push(Some(song@)),
                ..old(self)@
            }));
            if old(self)@.wf() {
                assert forall|i: int| 0 <= i < final(self)@.bag.len() implies eligible(
                    final(self)@.songs,
                    #[trigger] final(self)@.bag[i],
                ) by {
                    assert(eligible(old(self)@.songs, old(self)@.bag[i]));
                }
            }
        }
        h
    }

    /// Push onto the user queue: `front` means "play next in queue",
    /// otherwise the song is appended.
    pub fn queue(&mut self, h: Handle, front: bool)
        requires
            old(self)@.wf(),
            live(old(self)@.songs, h),
        ensures
            final(self)@ == old(self)@.spec_queue(h, front),
            final(self)@.wf(),
    {
        if front {
            self.user_queue.insert(0, h);
            proof {
                assert(final(self)@.user_queue =~= seq![h] + old(self)@.user_queue);
            }
        } else {
            self.user_queue.push(h);
        }
        proof {
            assert(final(self)@ =~= old(self)@.spec_queue(h, front));
        }
    }

    /// Pin `h` as the explicit next song; an existing pin is replaced.
    pub fn set_next(&mut self, h: Handle)
        requires
            old(self)@.wf(),
            live(old(self)@.songs, h),
        ensures
            final(self)@ == old(self)@.spec_set_next(h),
            final(self)@.wf(),
    {
        self.pinned = Some(PinnedNext { handle: h, explicit: true });
        proof {
            assert(final(self)@ =~= old(self)@.spec_set_next(h));
        }
    }

    /// Jump straight to `h`: the playing song goes to the history, and
    /// `h` is purged from every pending container before it becomes
    /// current.
    pub fn play(&mut self, h: Handle)
        requires
            old(self)@.wf(),
            live(old(self)@.songs, h),
        ensures
            final(self)@ == old(self)@.spec_play(h),
            final(self)@.wf(),
    {
        let new_bag = remove_handle(&self.bag, h);
        self.bag = new_bag;
        let new_queue = remove_handle(&self.user_queue, h);
        self.user_queue = new_queue;
        match self.pinned {
            Some(p) => {
                if p.handle == h {
                    self.pinned = None;
                }
            },
            None => {},
        }
        if let Some(c) = self.current {
            self.history.push(c);
        }
        self.current = Some(h);
        proof {
            lemma_remove_all_members(old(self)@.bag, h);
            lemma_remove_all_members(old(self)@.user_queue, h);
            assert(final(self)@ =~= old(self)@.spec_play(h));
        }
    }

    /// Step back to the most recently finished song; the interrupted
    /// song becomes an implicit pin.  A no-op when the history is empty.
    pub fn previous(&mut self)
        requires
            old(self)@.wf(),
        ensures
            final(self)@ == old(self)@.spec_previous(),
            final(self)@.wf(),
    {
        let popped = self.history.pop_back();
        match popped {
            Some(h) => {
                if let Some(c) = self.current {
                    self.pinned = Some(PinnedNext { handle: c, explicit: false });
                }
                self.current = Some(h);
            },
            None => {},
        }
        proof {
            assert(final(self)@ =~= old(self)@.spec_previous());
        }
    }

    /// Rebuild the bag from every eligible song in load order; the user
    /// queue and the pin are dropped.
    pub fn queue_all(&mut self)
        requires
            old(self)@.wf(),
        ensures
            final(self)@ == old(self)@.spec_queue_all(),
            final(self)@.wf(),
    {
        self.bag = self.songs.collect_eligible();
        self.user_queue = Vec::new();
        self.pinned = None;
        proof {
            assert(final(self)@ =~= old(self)@.spec_queue_all());
            crate::registry::lemma_eligible_upto_members(
                old(self)@.songs,
                old(self)@.songs.len() as int,
            );
        }
    }

    /// Reshuffle the bag in place; the pending set is unchanged.
    pub fn shuffle(&mut self)
        requires
            old(self)@.wf(),
        ensures
            final(self)@.bag.to_multiset() == old(self)@.bag.to_multiset(),
            final(self)@ == (Model { bag: final(self)@.bag, ..old(self)@ }),
            final(self)@.wf(),
    {
        shuffle_handles(&mut self.bag);
        proof {
            lemma_multiset_members(old(self)@.bag, final(self)@.bag);
            assert forall|i: int| 0 <= i < final(self)@.bag.len() implies eligible(
                final(self)@.songs,
                #[trigger] final(self)@.bag[i],
            ) by {
                let x = final(self)@.bag[i];
                let j = choose|j: int|
                    0 <= j < old(self)@.bag.len() && old(self)@.bag[j] == x;
                assert(eligible(old(self)@.songs, old(self)@.bag[j]));
            }
            assert(final(self)@ =~= (Model { bag: final(self)@.bag, ..old(self)@ }));
        }
    }

    /// The bag rebuilt for leaving shuffle: eligible songs in load
    /// order, rotated to continue right after the current song.
    fn rebuild_bag(&self) -> (r: Vec<Handle>)
        requires
            self@.wf(),
        ensures
            r@ == self@.rebuilt_bag(),
    {
        let e = self.songs.collect_eligible();
        let c = match self.current {
            Some(c) => c,
            None => {
                return e;
            },
        };
        let n = e.len();
        let ghost cur_path = song_of(self@.songs, c).path;
        let mut j: usize = 0;
        let mut found = false;
        while j < n && !found
            invariant
                self@.wf(),
                self@.current == Some(c),
                e@ == eligible_handles(self@.songs),
                n == e@.len(),
                cur_path == song_of(self@.songs, c).path,
                j <= n,
                !found ==> first_idx_with_path(self@.songs, e@, cur_path, 0)
                    == first_idx_with_path(self@.songs, e@, cur_path, j as int),
                found ==> j < n && first_idx_with_path(self@.songs, e@, cur_path, 0) == Some(
                    j as int,
                ),
            decreases n - j, (if found { 0int } else { 1int }),
    {
            proof {
                crate::registry::lemma_eligible_upto_members(
                    self@.songs,
                    self@.songs.len() as int,
                );
            }
            let cur_song = self.songs.get(c);
            let cand = self.songs.get(e[j]);
            if crate::text::str_eq(cand.path.as_str(), cur_song.path.as_str()) {
                found = true;
            } else {
                j += 1;
            }
        }
        if !found {
            proof {
                assert(self@.rebuilt_bag() =~= e@);
            }
            return e;
        }
        let mut r: Vec<Handle> = Vec::new();
        let mut k: usize = j + 1;
        while k < n
            invariant
                n == e@.len(),
                j < n,
                j + 1 <= k <= n,
                r@ == e@.subrange(j + 1 as int, k as int),
            decreases n - k,
        {
            r.push(e[k]);
            proof {
                assert(e@.subrange(j + 1 as int, k as int).push(e@[k as int]) =~= e@.subrange(
                    j + 1 as int,
                    k + 1 as int,
                ));
            }
            k += 1;
        }
        let mut k2: usize = 0;
        while k2 < j
            invariant
                n == e@.len(),
                j < n,
                k2 <= j,
                r@ == e@.subrange(j + 1 as int, n as int) + e@.take(k2 as int),
            decreases j - k2,
        {
            r.push(e[k2]);
            proof {
                assert((e@.subrange(j + 1 as int, n as int) + e@.take(k2 as int)).push(
                    e@[k2 as int],
                ) =~= e@.subrange(j + 1 as int, n as int) + e@.take(k2 + 1 as int));
            }
            k2 += 1;
        }
        proof {
            assert(r@ == self@.rebuilt_bag());
        }
        r
    }

    /// Switch shuffle on or off.  Turning it on reshuffles the pending
    /// bag in place; turning it off rebuilds the bag in load order
    /// starting right after the current song; setting the flag to its
    /// current value changes nothing.  The current song never changes.
    pub fn set_shuffle(&mut self, on: bool)
        requires
            old(self)@.wf(),
        ensures
            final(self)@.wf(),
            on == old(self)@.shuffle ==> final(self)@ == old(self)@,
            on && !old(self)@.shuffle ==> final(self)@.bag.to_multiset()
                == old(self)@.bag.to_multiset() && final(self)@ == (Model {
                shuffle: true,
                bag: final(self)@.bag,
                ..old(self)@
            }),
            !on && old(self)@.shuffle ==> final(self)@ == (Model {
                shuffle: false,
                bag: old(self)@.rebuilt_bag(),
                ..old(self)@
            }),
    {
        if on == self.shuffle {
            return;
        }
        if on {
            self.shuffle = true;
            shuffle_handles(&mut self.bag);
            proof {
                lemma_multiset_members(old(self)@.bag, final(self)@.bag);
                assert forall|i: int| 0 <= i < final(self)@.bag.len() implies eligible(
                    final(self)@.songs,
                    #[trigger] final(self)@.bag[i],
                ) by {
                    let x = final(self)@.bag[i];
                    let j = choose|j: int|
                        0 <= j < old(self)@.bag.len() && old(self)@.bag[j] == x;
                    assert(eligible(old(self)@.songs, old(self)@.bag[j]));
                }
                assert(final(self)@ =~= (Model {
                    shuffle: true,
                    bag: final(self)@.bag,
                    ..old(self)@
                }));
            }
        } else {
            let nb = self.rebuild_bag();
            self.shuffle = false;
            self.bag = nb;
            proof {
                crate::registry::lemma_eligible_upto_members(
                    old(self)@.songs,
                    old(self)@.songs.len() as int,
                );
                let e = eligible_handles(old(self)@.songs);
                lemma_rebuilt_bag_members(old(self)@);
                assert forall|i: int| 0 <= i < final(self)@.bag.len() implies eligible(
                    final(self)@.songs,
                    #[trigger] final(self)@.bag[i],
                ) by {
                    let x = final(self)@.bag[i];
                    assert(e.contains(x));
                    let j2 = choose|j2: int| 0 <= j2 < e.len() && e[j2] == x;
                    assert(eligible(old(self)@.songs, e[j2]));
                }
                assert(final(self)@ =~= (Model {
                    shuffle: false,
                    bag: old(self)@.rebuilt_bag(),
                    ..old(self)@
                }));
            }
        }
    }

    /// Move to the next song: the finished song is recorded in the
    /// history, the next one is resolved in strict priority order (pin,
    /// then user queue, then bag, refilling the bag under Playlist
    /// loop), and the new song's override, if any, becomes the pin.
    /// Under Track loop the current song is simply re-armed.  When a
    /// randomized refill happens, the refill order is some permutation
    /// of the eligible songs; everything else is as in the unshuffled
    /// advance.
    pub fn advance(&mut self)
        requires
            old(self)@.wf(),
        ensures
            final(self)@.wf(),
            !(old(self)@.refill_case() && old(self)@.shuffle) ==> final(self)@ == old(self)@.spec_advance(),
            old(self)@.refill_case() && old(self)@.shuffle ==> exists|p: Seq<Handle>|
                p.to_multiset() == eligible_handles(old(self)@.songs).to_multiset()
                && final(self)@ == old(self)@.spec_advance_with(p),
    {
        if self.loop_mode == LoopMode::Track && self.current.is_some() {
            return;
        }
        if let Some(c) = self.current {
            self.history.push(c);
        }
        self.current = None;

        let ghost m = old(self)@;
        let ghost refill_view: Seq<Handle> = eligible_handles(m.songs);

        let resolved: Option<Handle>;
        if self.pinned.is_some() {
            let p = self.pinned.unwrap();
            self.pinned = None;
            resolved = Some(p.handle);
        } else if self.user_queue.len() > 0 {
            resolved = Some(self.user_queue.remove(0));
        } else if self.bag.len() > 0 {
            resolved = Some(self.bag.remove(0));
        } else if self.loop_mode == LoopMode::Playlist {
            let mut refill = self.songs.collect_eligible();
            if self.shuffle {
                shuffle_handles(&mut refill);
            }
            proof {
                refill_view = refill@;
                crate::registry::lemma_eligible_upto_members(m.songs, m.songs.len() as int);
                lemma_multiset_members(eligible_handles(m.songs), refill@);
                assert forall|i: int| 0 <= i < refill@.len() implies eligible(
                    m.songs,
                    #[trigger] refill@[i],
                ) by {
                    let x = refill@[i];
                    let j = choose|j: int|
                        0 <= j < eligible_handles(m.songs).len() && eligible_handles(m.songs)[j]
                            == x;
                    assert(eligible(m.songs, eligible_handles(m.songs)[j]));
                }
            }
            if refill.len() > 0 {
                let h = refill.remove(0);
                self.bag = refill;
                resolved = Some(h);
            } else {
                self.bag = refill;
                resolved = None;
            }
        } else {
            resolved = None;
        }
        self.current = resolved;

        let op: Option<String> = match resolved {
            Some(c) => {
                match &self.songs.get(c).next {
                    Some(p) => Some(p.clone()),
                    None => None,
                }
            },
            None => None,
        };
        match op {
            Some(p) => {
                match self.songs.find_path(p.as_str()) {
                    Some(h2) => {
                        self.pinned = Some(PinnedNext { handle: h2, explicit: true });
                        proof {
                            crate::registry::lemma_first_with_path_from(m.songs, p@, 0);
                        }
                    },
                    None => {
                        let mut synth = Song::new(p);
                        synth.user_added = false;
                        let h2 = self.songs.insert(synth);
                        self.pinned = Some(PinnedNext { handle: h2, explicit: true });
                    },
                }
            },
            None => {},
        }
        proof {
            assert(final(self)@ =~= m.spec_advance_with(refill_view));
            if !(m.refill_case() && m.shuffle) {
                assert(final(self)@ =~= m.spec_advance());
            }
        }
    }

    /// Peek at what `advance` would play next, without mutating
    /// anything: the pin, else the user queue's head, else the bag's.
    pub fn next(&self) -> (r: Option<&Song>)
        requires
            self@.wf(),
        ensures
            r is Some <==> self@.upcoming().len() > 0,
            r matches Some(s) ==> s@ == song_of(self@.songs, self@.upcoming()[0]),
    {
        if let Some(p) = self.pinned {
            Some(self.songs.get(p.handle))
        } else if self.user_queue.len() > 0 {
            Some(self.songs.get(self.user_queue[0]))
        } else if self.bag.len() > 0 {
            Some(self.songs.get(self.bag[0]))
        } else {
            None
        }
    }

    /// Everything pending, in the order `advance` would serve it.
    pub fn upcoming(&self) -> (r: Vec<Handle>)
        ensures
            r@ == self@.upcoming(),
    {
        let mut r: Vec<Handle> = Vec::new();
        if let Some(p) = self.pinned {
            r.push(p.handle);
        }
        proof {
            assert(r@ =~= self@.pin_seq());
        }
        let qn = self.user_queue.len();
        let mut i: usize = 0;
        while i < qn
            invariant
                qn == self@.user_queue.len(),
                i <= qn,
                r@ == self@.pin_seq() + self@.user_queue.take(i as int),
            decreases qn - i,
        {
            r.push(self.user_queue[i]);
            proof {
                assert((self@.pin_seq() + self@.user_queue.take(i as int)).push(
                    self@.user_queue[i as int],
                ) =~= self@.pin_seq() + self@.user_queue.take(i + 1 as int));
            }
            i += 1;
        }
        proof {
            assert(self@.user_queue.take(qn as int) =~= self@.user_queue);
        }
        let bn = self.bag.len();
        let mut k: usize = 0;
        while k < bn
            invariant
                bn == self@.bag.len(),
                k <= bn,
                r@ == self@.pin_seq() + self@.user_queue + self@.bag.take(k as int),
            decreases bn - k,
        {
            r.push(self.bag[k]);
            proof {
                assert((self@.pin_seq() + self@.user_queue + self@.bag.take(k as int)).push(
                    self@.bag[k as int],
                ) =~= self@.pin_seq() + self@.user_queue + self@.bag.take(k + 1 as int));
            }
            k += 1;
        }
        proof {
            assert(self@.pin_seq() + self@.user_queue + self@.bag.take(bn as int)
                =~= self@.upcoming());
        }
        r
    }

    /// The first `n` pending songs, in serving order, for previews.
    pub fn upcoming_n(&self, n: usize) -> (r: Vec<Handle>)
        ensures
            r@ == if n <= self@.upcoming().len() {
                self@.upcoming().take(n as int)
            } else {
                self@.upcoming()
            },
    {
        let mut r = self.upcoming();
        r.truncate(n);
        r
    }

    /// The pending songs after the immediate next one, for display.
    pub fn playlist(&self) -> (r: Vec<Handle>)
        ensures
            r@ == if self@.upcoming().len() > 0 {
                self@.upcoming().drop_first()
            } else {
                Seq::<Handle>::empty()
            },
    {
        let mut r = self.upcoming();
        if r.len() > 0 {
            r.remove(0);
            proof {
                assert(r@ =~= self@.upcoming().drop_first());
            }
        } else {
            proof {
                assert(r@ =~= Seq::<Handle>::empty());
            }
        }
        r
    }

    /// The live user-added songs, in load order, for listing.
    pub fn songs(&self) -> (r: Vec<Handle>)
        ensures
            r@ == user_added_upto(self@.songs, self@.songs.len() as int),
    {
        self.songs.collect_user_added()
    }

    /// The user-added songs whose path matches the search, for the
    /// song list; no search keeps every one.
    pub fn filter_songs(&self, search: &Option<String>) -> (r: Vec<Handle>)
        ensures
            r@ == filter_handles(
                self@.songs,
                user_added_upto(self@.songs, self@.songs.len() as int),
                search.deep_view(),
            ),
    {
        let ua = self.songs.collect_user_added();
        proof {
            crate::registry::lemma_user_added_upto_members(self@.songs, self@.songs.len() as int);
        }
        let mut r: Vec<Handle> = Vec::new();
        let n = ua.len();
        let mut i: usize = 0;
        proof {
            assert(ua@.take(0) =~= Seq::<Handle>::empty());
            assert(filter_handles(self@.songs, ua@.take(0), search.deep_view())
                =~= Seq::<Handle>::empty());
        }
        while i < n
            invariant
                n == ua@.len(),
                i <= n,
                ua@ == user_added_upto(self@.songs, self@.songs.len() as int),
                forall|k: int|
                    0 <= k < ua@.len() ==> live(self@.songs, #[trigger] ua@[k]),
                r@ == filter_handles(self@.songs, ua@.take(i as int), search.deep_view()),
            decreases n - i,
        {
            let h = ua[i];
            let keep = match search {
                Some(s) => matches_search(self.songs.get(h).path.as_str(), s.as_str()),
                None => true,
            };
            proof {
                lemma_filter_push(self@.songs, ua@.take(i as int), ua@[i as int], search.deep_view());
                assert(ua@.take(i as int).push(ua@[i as int]) =~= ua@.take(i + 1));
            }
            if keep {
                r.push(h);
            }
            i += 1;
        }
        proof {
            assert(ua@.take(n as int) =~= ua@);
        }
        r
    }

    /// Open a file at runtime: register it as a fresh user-added song
    /// and jump to it immediately.
    pub fn open_file(&mut self, path: String) -> (h: Handle)
        requires
            old(self)@.wf(),
        ensures
            final(self)@.wf(),
            h.id == old(self)@.songs.len(),
            final(self)@ == (Model {
                songs: old(self)@.songs.push(
                    Some(
                        SongM {
                            name: file_name_of(path@),
                            path: path@,
                            next: None,
                            no_shuffle: false,
                            user_added: true,
                            duration: None,
                        },
                    ),
                ),
                ..old(self)@
            }).spec_play(h),
    {
        let h = self.add_song(Song::new(path));
        self.play(h);
        h
    }

    /// Load a playlist from its text: register every song the lines
    /// describe, in order, and append the shuffle-eligible ones to the
    /// bag.  `home` replaces a leading `~` of a path line.  Returns how
    /// many songs were registered.
    pub fn load_playlist_text(&mut self, text: &str, home: &str) -> (count: usize)
        requires
            old(self)@.wf(),
        ensures
            final(self)@ == old(self)@.spec_load_playlist(text@, home@),
            final(self)@.wf(),
            count == parse_playlist_songs(text@, home@).len(),
    {
        let parsed = parse_playlist(text, home);
        let count = parsed.len();
        let ghost pv = parsed.deep_view();
        let ghost base = old(self)@.songs.len() as int;
        let ghost m0 = old(self)@;
        let mut rest = parsed;
        proof {
            assert(pv.take(0) =~= Seq::<SongM>::empty());
            assert(m0.songs + pv.take(0).map_values(|s: SongM| Some(s)) =~= m0.songs);
            assert(m0.bag + queued_handles(pv.take(0), base) =~= m0.bag);
            assert(rest.deep_view() =~~= pv.skip(0));
        }
        while rest.len() > 0
            invariant
                rest.deep_view() == pv.skip(pv.len() - rest.deep_view().len()),
                rest.deep_view().len() <= pv.len(),
                self@.songs == m0.songs + pv.take(
                    pv.len() - rest.deep_view().len(),
                ).map_values(|s: SongM| Some(s)),
                self@.bag == m0.bag + queued_handles(
                    pv.take(pv.len() - rest.deep_view().len()),
                    base,
                ),
                base == m0.songs.len() as int,
                self@.user_queue == m0.user_queue,
                self@.pinned == m0.pinned,
                self@.current == m0.current,
                self@.history == m0.history,
                self@.shuffle == m0.shuffle,
                self@.loop_mode == m0.loop_mode,
            decreases rest.deep_view().len(),
        {
            let ghost j = pv.len() - rest.deep_view().len();
            let ghost rv0 = rest@;
            let ghost dvb = rest.deep_view();
            let song = rest.remove(0);
            proof {
                assert(song.deep_view() == dvb[0]);
                assert(dvb[0] == pv.skip(j)[0]);
                assert(pv.skip(j)[0] == pv[j]);
                assert forall|k: int| 0 <= k < rest.deep_view().len() implies rest.deep_view()[k]
                    == pv.skip(j + 1)[k] by {
                    assert(rest@[k] == rv0.remove(0)[k]);
                    assert(rv0.remove(0)[k] == rv0[k + 1]);
                    assert(rest.deep_view()[k] == rv0[k + 1].deep_view());
                    assert(dvb[k + 1] == rv0[k + 1].deep_view());
                    assert(dvb[k + 1] == pv.skip(j)[k + 1]);
                    assert(pv.skip(j)[k + 1] == pv[j + k + 1]);
                }
                assert(rest.deep_view() =~~= pv.skip(j + 1));
                assert(pv.take(j + 1) =~= pv.take(j).push(pv[j]));
            }
            let no_shuf = song.no_shuffle;
            let h = self.songs.insert(song);
            proof {
                assert(self@.songs =~= m0.songs + pv.take(j + 1).map_values(
                    |s: SongM| Some(s),
                ));
                lemma_queued_push(pv.take(j), pv[j], base);
            }
            if !no_shuf {
                self.bag.push(h);
                proof {
                    assert(self@.bag =~= m0.bag + queued_handles(pv.take(j + 1), base));
                }
            } else {
                proof {
                    assert(self@.bag =~= m0.bag + queued_handles(pv.take(j + 1), base));
                }
            }
        }
        let total = self.songs.slot_count();
        proof {
            assert(total as int == base + pv.len());
            assert(pv.take(pv.len() as int) =~= pv);
            assert(final(self)@ =~= m0.spec_load_playlist(text@, home@));
            lemma_parse_from_user_added(spec_lines(text@), home@, crate::parse::empty_pending());
            assert(forall|i: int|
                0 <= i < pv.len() ==> m0.songs + pv.map_values(|s: SongM| Some(s))
                    == final(self)@.songs && (m0.songs + pv.map_values(|s: SongM| Some(s)))[base
                    + i] == Some(#[trigger] pv[i]));
            lemma_queued_handles_eligible(final(self)@.songs, pv, base);
            assert forall|i: int| 0 <= i < final(self)@.bag.len() implies eligible(
                final(self)@.songs,
                #[trigger] final(self)@.bag[i],
            ) by {
                if i < m0.bag.len() {
                    assert(final(self)@.bag[i] == m0.bag[i]);
                    assert(eligible(m0.songs, m0.bag[i]));
                } else {
                    assert(final(self)@.bag[i] == queued_handles(pv, base)[i - m0.bag.len()]);
                }
            }
        }
        count
    }

    /// Remove a song for good: its slot is tombstoned and the handle is
    /// purged from the bag, the user queue, the pin, the history and the
    /// current slot.
    pub fn remove_song(&mut self, h: Handle)
        requires
            old(self)@.wf(),
            live(old(self)@.songs, h),
        ensures
            final(self)@ == old(self)@.spec_remove(h),
            final(self)@.wf(),
    {
        self.songs.remove(h);
        let new_bag = remove_handle(&self.bag, h);
        self.bag = new_bag;
        let new_queue = remove_handle(&self.user_queue, h);
        self.user_queue = new_queue;
        self.history.purge(h);
        match self.pinned {
            Some(p) => {
                if p.handle == h {
                    self.pinned = None;
                }
            },
            None => {},
        }
        match self.current {
            Some(c) => {
                if c.id == h.id {
                    self.current = None;
                }
            },
            None => {},
        }
        proof {
            lemma_remove_all_members(old(self)@.bag, h);
            lemma_remove_all_members(old(self)@.user_queue, h);
            lemma_remove_all_members(old(self)@.history, h);
            assert(final(self)@ =~= old(self)@.spec_remove(h));
        }
    }
}

} // verus!
