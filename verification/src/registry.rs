use vstd::prelude::*;

use crate::song::{Song, SongM};
use crate::text::str_eq;
use crate::Handle;

verus! {

/// Whether `h` names a live (not tombstoned) slot of `songs`.
pub open spec fn live(songs: Seq<Option<SongM>>, h: Handle) -> bool {
    h.id < songs.len() && songs[h.id as int] is Some
}

/// The song `h` names; meaningful only when `live(songs, h)`.
pub open spec fn song_of(songs: Seq<Option<SongM>>, h: Handle) -> SongM {
    songs[h.id as int]->Some_0
}

/// Eligible for the bag's automatic refill: a live, user-added song not
/// excluded from shuffle.
pub open spec fn eligible(songs: Seq<Option<SongM>>, h: Handle) -> bool {
    live(songs, h) && song_of(songs, h).user_added && !song_of(songs, h).no_shuffle
}

/// Handles of the eligible songs among the first `n` slots, in slot
/// (that is, load) order.
pub open spec fn eligible_upto(songs: Seq<Option<SongM>>, n: int) -> Seq<Handle>
    decreases n,
{
    if n <= 0 {
        Seq::<Handle>::empty()
    } else if eligible(songs, Handle { id: (n - 1) as usize }) {
        eligible_upto(songs, n - 1).push(Handle { id: (n - 1) as usize })
    } else {
        eligible_upto(songs, n - 1)
    }
}

/// Handles of all eligible songs, in load order: the bag's refill source.
pub open spec fn eligible_handles(songs: Seq<Option<SongM>>) -> Seq<Handle> {
    eligible_upto(songs, songs.len() as int)
}

/// Every handle the refill source lists is eligible.
pub proof fn lemma_eligible_upto_members(songs: Seq<Option<SongM>>, n: int)
    ensures
        forall|i: int|
            0 <= i < eligible_upto(songs, n).len() ==> eligible(
                songs,
                #[trigger] eligible_upto(songs, n)[i],
            ),
    decreases n,
{
    if n > 0 {
        lemma_eligible_upto_members(songs, n - 1);
        let prev = eligible_upto(songs, n - 1);
        let cur = eligible_upto(songs, n);
        assert forall|i: int| 0 <= i < cur.len() implies eligible(songs, cur[i]) by {
            if i < prev.len() {
                assert(cur[i] == prev[i]);
            }
        }
    }
}

/// Handles of the live user-added songs among the first `n` slots.
pub open spec fn user_added_upto(songs: Seq<Option<SongM>>, n: int) -> Seq<Handle>
    decreases n,
{
    if n <= 0 {
        Seq::<Handle>::empty()
    } else if live(songs, Handle { id: (n - 1) as usize }) && song_of(
        songs,
        Handle { id: (n - 1) as usize },
    ).user_added {
        user_added_upto(songs, n - 1).push(Handle { id: (n - 1) as usize })
    } else {
        user_added_upto(songs, n - 1)
    }
}

/// Handles of all live songs among the first `n` slots.
pub open spec fn live_upto(songs: Seq<Option<SongM>>, n: int) -> Seq<Handle>
    decreases n,
{
    if n <= 0 {
        Seq::<Handle>::empty()
    } else if live(songs, Handle { id: (n - 1) as usize }) {
        live_upto(songs, n - 1).push(Handle { id: (n - 1) as usize })
    } else {
        live_upto(songs, n - 1)
    }
}

/// Every handle the user-added listing yields is live and user-added.
pub proof fn lemma_user_added_upto_members(songs: Seq<Option<SongM>>, n: int)
    ensures
        forall|i: int|
            0 <= i < user_added_upto(songs, n).len() ==> live(
                songs,
                #[trigger] user_added_upto(songs, n)[i],
            ) && song_of(songs, user_added_upto(songs, n)[i]).user_added,
    decreases n,
{
    if n > 0 {
        lemma_user_added_upto_members(songs, n - 1);
        let prev = user_added_upto(songs, n - 1);
        let cur = user_added_upto(songs, n);
        assert forall|i: int|
            0 <= i < cur.len() implies live(songs, cur[i]) && song_of(
            songs,
            cur[i],
        ).user_added by {
            if i < prev.len() {
                assert(cur[i] == prev[i]);
            }
        }
    }
}

/// The first live slot at or after `i` whose song sits at `path`.
pub open spec fn first_with_path_from(
    songs: Seq<Option<SongM>>,
    path: Seq<char>,
    i: int,
) -> Option<Handle>
    decreases songs.len() - i,
{
    if i < 0 || i >= songs.len() {
        None
    } else if live(songs, Handle { id: i as usize }) && song_of(
        songs,
        Handle { id: i as usize },
    ).path == path {
        Some(Handle { id: i as usize })
    } else {
        first_with_path_from(songs, path, i + 1)
    }
}

/// The canonical handle for `path`: the first live slot holding it.
pub open spec fn first_with_path(songs: Seq<Option<SongM>>, path: Seq<char>) -> Option<Handle> {
    first_with_path_from(songs, path, 0)
}

/// A found canonical handle is live and sits at the looked-up path.
pub proof fn lemma_first_with_path_from(songs: Seq<Option<SongM>>, path: Seq<char>, i: int)
    ensures
        first_with_path_from(songs, path, i) matches Some(h) ==> live(songs, h) && song_of(
            songs,
            h,
        ).path == path,
    decreases songs.len() - i,
{
    if 0 <= i < songs.len() {
        lemma_first_with_path_from(songs, path, i + 1);
    }
}

/// Arena of songs keyed by stable handles.  Slots are only appended or
/// tombstoned, never reused, so a handle issued once names the same song
/// for the registry's whole life.
pub struct Registry {
    slots: Vec<Option<Song>>,
}

impl View for Registry {
    type V = Seq<Option<SongM>>;

    closed spec fn view(&self) -> Seq<Option<SongM>> {
        Seq::new(self.slots@.len(), |i: int| match self.slots@[i] {
            Some(s) => Some(s@),
            None => None,
        })
    }
}

impl Registry {
    /// An empty registry.
    pub fn new() -> (r: Registry)
        ensures
            r@ == Seq::<Option<SongM>>::empty(),
    {
        let r = Registry { slots: Vec::new() };
        proof {
            assert(r@ =~= Seq::<Option<SongM>>::empty());
        }
        r
    }

    /// How many slots have ever been filled, tombstoned ones included.
    pub fn slot_count(&self) -> (n: usize)
        ensures
            n == self@.len(),
    {
        self.slots.len()
    }

    /// Register a song; the fresh handle is live and names it.
    pub fn insert(&mut self, song: Song) -> (h: Handle)
        ensures
            final(self)@ == old(self)@.push(Some(song@)),
            h.id == old(self)@.len(),
            live(final(self)@, h),
            song_of(final(self)@, h) == song@,
    {
        let h = Handle { id: self.slots.len() };
        self.slots.push(Some(song));
        proof {
            assert(final(self)@ =~= old(self)@.push(Some(song@)));
        }
        h
    }

    /// Read the song a live handle names.
    pub fn get(&self, h: Handle) -> (s: &Song)
        requires
            live(self@, h),
        ensures
            s@ == song_of(self@, h),
    {
        match &self.slots[h.id] {
            Some(s) => s,
            None => unreached(),
        }
    }

    /// Tombstone a live handle's slot; every other slot is untouched.
    pub fn remove(&mut self, h: Handle)
        requires
            live(old(self)@, h),
        ensures
            final(self)@ == old(self)@.update(h.id as int, None),
    {
        self.slots.set(h.id, None);
        proof {
            assert(final(self)@ =~= old(self)@.update(h.id as int, None));
        }
    }

    /// The refill source, as a vector: all eligible handles in load order.
    pub fn collect_eligible(&self) -> (r: Vec<Handle>)
        ensures
            r@ == eligible_handles(self@),
    {
        let mut r: Vec<Handle> = Vec::new();
        let n = self.slots.len();
        let mut i: usize = 0;
        while i < n
            invariant
                n == self@.len(),
                i <= n,
                r@ == eligible_upto(self@, i as int),
            decreases n - i,
        {
            let keep = match &self.slots[i] {
                Some(s) => s.user_added && !s.no_shuffle,
                None => false,
            };
            if keep {
                r.push(Handle { id: i });
            }
            i += 1;
        }
        r
    }

    /// All live handles in load order.
    pub fn collect_live(&self) -> (r: Vec<Handle>)
        ensures
            r@ == live_upto(self@, self@.len() as int),
    {
        let mut r: Vec<Handle> = Vec::new();
        let n = self.slots.len();
        let mut i: usize = 0;
        while i < n
            invariant
                n == self@.len(),
                i <= n,
                r@ == live_upto(self@, i as int),
            decreases n - i,
        {
            let keep = match &self.slots[i] {
                Some(_) => true,
                None => false,
            };
            if keep {
                r.push(Handle { id: i });
            }
            i += 1;
        }
        r
    }

    /// All live user-added handles in load order, for listing.
    pub fn collect_user_added(&self) -> (r: Vec<Handle>)
        ensures
            r@ == user_added_upto(self@, self@.len() as int),
    {
        let mut r: Vec<Handle> = Vec::new();
        let n = self.slots.len();
        let mut i: usize = 0;
        while i < n
            invariant
                n == self@.len(),
                i <= n,
                r@ == user_added_upto(self@, i as int),
            decreases n - i,
        {
            let keep = match &self.slots[i] {
                Some(s) => s.user_added,
                None => false,
            };
            if keep {
                r.push(Handle { id: i });
            }
            i += 1;
        }
        r
    }

    /// The canonical handle for `path`, if any live song sits there.
    pub fn find_path(&self, path: &str) -> (r: Option<Handle>)
        ensures
            r == first_with_path(self@, path@),
    {
        let n = self.slots.len();
        let mut i: usize = 0;
        while i < n
            invariant
                n == self@.len(),
                i <= n,
                first_with_path(self@, path@) == first_with_path_from(self@, path@, i as int),
            decreases n - i,
        {
            let hit = match &self.slots[i] {
                Some(s) => str_eq(s.path.as_str(), path),
                None => false,
            };
            if hit {
                return Some(Handle { id: i });
            }
            i += 1;
        }
        None
    }
}

} // verus!
