use vstd::prelude::*;

use crate::history::{push_history, HISTORY_CAPACITY};
use crate::queue::{LoopMode, Model};
use crate::registry::{eligible, eligible_handles, lemma_eligible_upto_members, live, song_of};
use crate::Handle;

verus! {

/// Under Playlist loop, playback never stops while any song is
/// eligible: whatever permutation a refill uses, an advance always
/// resolves a next song.
pub proof fn lemma_playlist_loop_never_stops(m: Model, refill: Seq<Handle>)
    requires
        m.wf(),
        m.loop_mode == LoopMode::Playlist,
        refill.to_multiset() == eligible_handles(m.songs).to_multiset(),
        eligible_handles(m.songs).len() > 0,
    ensures
        m.spec_advance_with(refill).current is Some,
{
    broadcast use vstd::seq_lib::group_to_multiset_ensures;

    assert(refill.to_multiset().len() == refill.len());
    assert(eligible_handles(m.songs).to_multiset().len() == eligible_handles(m.songs).len());
    assert(refill.len() == eligible_handles(m.songs).len());
}

/// A refilling advance loses no song and invents none: the new current
/// song together with the remaining bag is exactly the refill order,
/// which holds exactly the eligible songs.
pub proof fn lemma_refill_exact(m: Model, refill: Seq<Handle>)
    requires
        m.wf(),
        m.refill_case(),
        refill.to_multiset() == eligible_handles(m.songs).to_multiset(),
        eligible_handles(m.songs).len() > 0,
    ensures
        seq![m.spec_advance_with(refill).current->Some_0] + m.spec_advance_with(refill).bag
            == refill,
{
    broadcast use vstd::seq_lib::group_to_multiset_ensures;

    assert(refill.to_multiset().len() == refill.len());
    assert(eligible_handles(m.songs).to_multiset().len() == eligible_handles(m.songs).len());
    assert(refill.len() == eligible_handles(m.songs).len());
    let r = m.spec_advance_with(refill);
    assert(seq![r.current->Some_0] + r.bag =~= refill);
}

/// No ineligible song is ever auto-selected: with nothing pinned and
/// nothing user-queued, whatever an advance resolves to is an eligible
/// song, shuffled refill or not.
pub proof fn lemma_auto_selection_eligible(m: Model, refill: Seq<Handle>)
    requires
        m.wf(),
        m.pinned is None,
        m.user_queue.len() == 0,
        !m.track_hold(),
        refill.to_multiset() == eligible_handles(m.songs).to_multiset(),
    ensures
        m.spec_advance_with(refill).current matches Some(c) ==> eligible(m.songs, c),
{
    broadcast use vstd::seq_lib::group_to_multiset_ensures;

    let e = eligible_handles(m.songs);
    lemma_eligible_upto_members(m.songs, m.songs.len() as int);
    if m.bag.len() > 0 {
        assert(eligible(m.songs, m.bag[0]));
    } else if m.loop_mode == LoopMode::Playlist && refill.len() > 0 {
        let x = refill[0];
        assert(refill.contains(x));
        assert(refill.to_multiset().count(x) > 0);
        assert(e.to_multiset().count(x) > 0);
        assert(e.contains(x));
        let j = choose|j: int| 0 <= j < e.len() && e[j] == x;
        assert(eligible(m.songs, e[j]));
        assert(eligible(m.songs, x));
    }
}

/// An advance never loses a pending song: whatever was pending before
/// the call is either the new current song or still pending after it.
pub proof fn lemma_advance_conserves_pending(m: Model, refill: Seq<Handle>, h: Handle)
    requires
        m.upcoming().contains(h),
    ensures
        m.spec_advance_with(refill).current == Some(h) || m.spec_advance_with(
            refill,
        ).upcoming().contains(h),
{
    let r = m.spec_advance_with(refill);
    if m.track_hold() {
        assert(r.upcoming().contains(h));
    } else {
        let up = m.upcoming();
        let i = choose|i: int| 0 <= i < up.len() && up[i] == h;
        let p = m.pin_seq().len() as int;
        let qn = m.user_queue.len() as int;
        if i < p {
            assert(up[i] == m.pin_seq()[i]);
            assert(r.current == Some(h));
        } else if i < p + qn {
            let j = i - p;
            assert(up[i] == m.user_queue[j]);
            if m.pinned is Some {
                assert(r.upcoming()[r.pin_seq().len() + j] == h);
                assert(r.upcoming().contains(h));
            } else if j == 0 {
                assert(r.current == Some(h));
            } else {
                assert(r.user_queue[j - 1] == h);
                assert(r.upcoming()[r.pin_seq().len() + j - 1] == h);
                assert(r.upcoming().contains(h));
            }
        } else {
            let k = i - p - qn;
            assert(up[i] == m.bag[k]);
            if m.pinned is Some || m.user_queue.len() > 0 {
                assert(r.bag[k] == h);
                assert(r.upcoming()[r.pin_seq().len() + r.user_queue.len() + k] == h);
                assert(r.upcoming().contains(h));
            } else if k == 0 {
                assert(r.current == Some(h));
            } else {
                assert(r.bag[k - 1] == h);
                assert(r.upcoming()[r.pin_seq().len() + r.user_queue.len() + k - 1] == h);
                assert(r.upcoming().contains(h));
            }
        }
    }
}

/// `previous()` followed at once by `advance()` restores the current
/// song, the history, the bag and the user queue exactly; only the pin
/// may end up different, re-derived from the restored song's override.
pub proof fn lemma_previous_then_advance(m: Model, refill: Seq<Handle>)
    requires
        m.wf(),
        m.history.len() > 0,
        m.current is Some,
        m.loop_mode != LoopMode::Track,
    ensures
        m.spec_previous().spec_advance_with(refill).current == m.current,
        m.spec_previous().spec_advance_with(refill).history == m.history,
        m.spec_previous().spec_advance_with(refill).bag == m.bag,
        m.spec_previous().spec_advance_with(refill).user_queue == m.user_queue,
        m.spec_previous().spec_advance_with(refill).shuffle == m.shuffle,
        m.spec_previous().spec_advance_with(refill).loop_mode == m.loop_mode,
{
    let s = m.spec_previous();
    assert(push_history(s.history, s.current->Some_0) =~= m.history);
}

/// `set_next(h)` always makes the very next advance play `h`,
/// regardless of what the bag and the user queue hold.
pub proof fn lemma_set_next_then_advance(m: Model, h: Handle, refill: Seq<Handle>)
    requires
        m.wf(),
        live(m.songs, h),
        !(m.loop_mode == LoopMode::Track && m.current is Some),
    ensures
        m.spec_set_next(h).spec_advance_with(refill).current == Some(h),
{
}

/// User-queued songs are served first-in first-out, after any pin and
/// strictly before any bag entry: queueing `h1` then `h2` at the back
/// of an empty user queue makes the next two advances play `h1` then
/// `h2`, whatever the bag holds.
pub proof fn lemma_queue_fifo(
    m: Model,
    h1: Handle,
    h2: Handle,
    refill1: Seq<Handle>,
    refill2: Seq<Handle>,
)
    requires
        m.wf(),
        live(m.songs, h1),
        live(m.songs, h2),
        m.pinned is None,
        m.user_queue.len() == 0,
        m.loop_mode != LoopMode::Track,
        song_of(m.songs, h1).next is None,
    ensures
        ({
            let s = m.spec_queue(h1, false).spec_queue(h2, false);
            let r1 = s.spec_advance_with(refill1);
            r1.current == Some(h1) && r1.spec_advance_with(refill2).current == Some(h2)
        }),
{
    let s = m.spec_queue(h1, false).spec_queue(h2, false);
    assert(s.user_queue[0] == h1);
    let r1 = s.spec_advance_with(refill1);
    assert(r1.user_queue[0] == h2);
}

/// Peeking is faithful: whenever anything is pending, the next advance
/// plays exactly the head of the pending order that `next` reports.
pub proof fn lemma_peek_matches_advance(m: Model, refill: Seq<Handle>)
    requires
        !m.track_hold(),
        m.upcoming().len() > 0,
    ensures
        m.spec_advance_with(refill).current == Some(m.upcoming()[0]),
{
    if m.pinned is Some {
        assert(m.upcoming()[0] == m.pin_seq()[0]);
    } else if m.user_queue.len() > 0 {
        assert(m.upcoming()[0] == m.user_queue[0]);
    } else {
        assert(m.upcoming()[0] == m.bag[0]);
    }
}

/// The history never outgrows its fixed capacity, and a push onto a
/// full history evicts exactly the oldest entry.
pub proof fn lemma_history_bounded(hist: Seq<Handle>, h: Handle)
    requires
        hist.len() <= HISTORY_CAPACITY,
    ensures
        push_history(hist, h).len() <= HISTORY_CAPACITY,
        hist.len() == HISTORY_CAPACITY ==> push_history(hist, h) == hist.drop_first().push(h),
        hist.len() < HISTORY_CAPACITY ==> push_history(hist, h) == hist.push(h),
{
}

/// Toggling shuffle off rebuilds the bag from the load order; toggling
/// it back on permutes that bag without touching its membership, so the
/// round trip preserves exactly the rebuilt set, every entry of which
/// is an eligible song.
pub proof fn lemma_shuffle_toggle_set(m: Model, reshuffled: Seq<Handle>)
    requires
        m.wf(),
        m.shuffle,
        reshuffled.to_multiset() == m.rebuilt_bag().to_multiset(),
    ensures
        forall|h: Handle| reshuffled.contains(h) <==> m.rebuilt_bag().contains(h),
        forall|i: int|
            0 <= i < reshuffled.len() ==> eligible(m.songs, #[trigger] reshuffled[i]),
{
    broadcast use vstd::seq_lib::group_to_multiset_ensures;

    let b = m.rebuilt_bag();
    let e = eligible_handles(m.songs);
    crate::queue::lemma_rebuilt_bag_members(m);
    lemma_eligible_upto_members(m.songs, m.songs.len() as int);
    assert forall|h: Handle| reshuffled.contains(h) <==> b.contains(h) by {
        if reshuffled.contains(h) {
            assert(reshuffled.to_multiset().count(h) > 0);
            assert(b.to_multiset().count(h) > 0);
        }
        if b.contains(h) {
            assert(b.to_multiset().count(h) > 0);
            assert(reshuffled.to_multiset().count(h) > 0);
        }
    }
    assert forall|i: int| 0 <= i < reshuffled.len() implies eligible(
        m.songs,
        #[trigger] reshuffled[i],
    ) by {
        let x = reshuffled[i];
        assert(reshuffled.contains(x));
        assert(reshuffled.to_multiset().count(x) > 0);
        assert(b.to_multiset().count(x) > 0);
        assert(b.contains(x));
        let j = choose|j: int| 0 <= j < b.len() && b[j] == x;
        assert(e.contains(b[j]));
        let k = choose|k: int| 0 <= k < e.len() && e[k] == x;
        assert(eligible(m.songs, e[k]));
    }
}

/// With no song playing, leaving shuffle rebuilds the bag as exactly
/// the eligible songs in load order.
pub proof fn lemma_rebuild_full_when_idle(m: Model)
    requires
        m.current is None,
    ensures
        m.rebuilt_bag() == eligible_handles(m.songs),
{
}

} // verus!
