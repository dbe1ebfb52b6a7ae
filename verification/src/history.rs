use vstd::prelude::*;

use crate::util::{remove_all, remove_handle};
use crate::Handle;

verus! {

/// How many finished songs the ring remembers.  Fixed by design: it
/// bounds memory and how far back `previous` can reach.
pub const HISTORY_CAPACITY: usize = 32;

/// What pushing onto the ring does: append, evicting the oldest entry
/// once the ring is full.
pub open spec fn push_history(hist: Seq<Handle>, h: Handle) -> Seq<Handle> {
    if hist.len() < HISTORY_CAPACITY {
        hist.push(h)
    } else {
        hist.drop_first().push(h)
    }
}

/// Bounded ring of the handles played to completion, most recent last.
pub struct History {
    entries: Vec<Handle>,
}

impl View for History {
    type V = Seq<Handle>;

    closed spec fn view(&self) -> Seq<Handle> {
        self.entries@
    }
}

impl History {
    /// Within capacity; every operation preserves this.
    pub open spec fn wf(&self) -> bool {
        self@.len() <= HISTORY_CAPACITY
    }

    /// An empty ring.
    pub fn new() -> (r: History)
        ensures
            r@ == Seq::<Handle>::empty(),
            r.wf(),
    {
        History { entries: Vec::new() }
    }

    pub fn len(&self) -> (n: usize)
        ensures
            n == self@.len(),
    {
        self.entries.len()
    }

    /// Record a finished song, evicting the oldest once at capacity.
    pub fn push(&mut self, h: Handle)
        requires
            old(self).wf(),
        ensures
            final(self)@ == push_history(old(self)@, h),
            final(self).wf(),
    {
        if self.entries.len() >= HISTORY_CAPACITY {
            self.entries.remove(0);
            proof {
                assert(self.entries@ =~= old(self)@.drop_first());
            }
        }
        self.entries.push(h);
    }

    /// Take the most recently played handle, if any.
    pub fn pop_back(&mut self) -> (r: Option<Handle>)
        ensures
            old(self)@.len() == 0 ==> r is None && final(self)@ == old(self)@,
            old(self)@.len() > 0 ==> r == Some(old(self)@.last()) && final(self)@ == old(
                self,
            )@.drop_last(),
            old(self).wf() ==> final(self).wf(),
    {
        self.entries.pop()
    }

    /// Forget every occurrence of `h` (used when a song is removed).
    pub fn purge(&mut self, h: Handle)
        ensures
            final(self)@ == remove_all(old(self)@, h),
            old(self).wf() ==> final(self).wf(),
    {
        let r = remove_handle(&self.entries, h);
        proof {
            crate::util::lemma_remove_all_members(old(self)@, h);
        }
        self.entries = r;
    }
}

} // verus!
