//! Life-cycle registry of the sync loops: which loop of a sync is current and
//! which sync was paused.
//!
//! Every started loop gets a fresh generation number, so a restarted loop's
//! stale predecessor can tell that it is no longer current. A sync paused for
//! a dialog is resumed only if it really was paused.

use vstd::prelude::*;
use crate::strmap::StrMap;
use crate::text::owned;

verus! {

pub struct SyncControl {
    next_generation: u64,
    current: StrMap<u64>,
    paused: StrMap<()>,
}

impl SyncControl {
    pub closed spec fn wf(&self) -> bool {
        &&& self.current.wf()
        &&& self.paused.wf()
        &&& forall|k: Seq<char>| #[trigger]
            self.current@.contains_key(k) ==> 1 <= self.current@[k] <= self.next_generation
    }

    /// The last generation handed out (0 before the first loop).
    pub closed spec fn last_generation(&self) -> u64 {
        self.next_generation
    }

    /// Every generation handed out so far.
    pub closed spec fn issued(&self) -> Set<u64> {
        Set::new(|g: u64| 1 <= g <= self.next_generation)
    }

    /// Sync code → generation of its current loop.
    pub closed spec fn current(&self) -> Map<Seq<char>, u64> {
        self.current@
    }

    /// Sync codes whose loop is paused.
    pub closed spec fn paused(&self) -> Set<Seq<char>> {
        self.paused@.dom()
    }

    pub fn new() -> (r: Self)
        ensures
            r.wf(),
            r.last_generation() == 0,
            r.issued() == Set::<u64>::empty(),
            r.current() == Map::<Seq<char>, u64>::empty(),
            r.paused() == Set::<Seq<char>>::empty(),
    {
        let r = SyncControl { next_generation: 0, current: StrMap::new(), paused: StrMap::new() };
        assert(r.paused() =~= Set::<Seq<char>>::empty());
        assert(r.issued() =~= Set::<u64>::empty());
        r
    }

    /// Registers a new loop of `code` and returns its generation. The previous
    /// loop of the same sync becomes stale; the new one is not paused.
    pub fn begin_loop(&mut self, code: &str) -> (r: u64)
        requires
            old(self).wf(),
            old(self).last_generation() < u64::MAX,
        ensures
            final(self).wf(),
            r == old(self).last_generation() + 1,
            final(self).last_generation() == r,
            forall|g: u64| #[trigger] old(self).issued().contains(g) ==> g < r,
            final(self).issued() == old(self).issued().insert(r),
            final(self).current() == old(self).current().insert(code@, r),
            final(self).paused() == old(self).paused().remove(code@),
    {
        self.next_generation = self.next_generation + 1;
        self.current.insert(owned(code), self.next_generation);
        let _ = self.paused.remove(code);
        proof {
            assert(self.paused() =~= old(self).paused().remove(code@));
            assert(self.issued() =~= old(self).issued().insert(self.next_generation));
        }
        self.next_generation
    }

    /// Is `generation` the registered (not superseded) loop of `code`?
    pub fn is_current(&self, code: &str, generation: u64) -> (r: bool)
        requires
            self.wf(),
        ensures
            r == (self.current().contains_key(code@) && self.current()[code@] == generation),
    {
        match self.current.get(code) {
            Some(g) => *g == generation,
            None => false,
        }
    }

    pub fn mark_paused(&mut self, code: &str)
        requires
            old(self).wf(),
        ensures
            final(self).wf(),
            final(self).last_generation() == old(self).last_generation(),
            final(self).issued() == old(self).issued(),
            final(self).current() == old(self).current(),
            final(self).paused() == old(self).paused().insert(code@),
    {
        self.paused.insert(owned(code), ());
        proof {
            assert(self.paused() =~= old(self).paused().insert(code@));
        }
    }

    pub fn is_paused(&self, code: &str) -> (r: bool)
        requires
            self.wf(),
        ensures
            r == self.paused().contains(code@),
    {
        self.paused.contains_key(code)
    }

    /// Clears the pause mark; `true` exactly when the sync was paused (and so
    /// its loop must be restarted).
    pub fn take_paused(&mut self, code: &str) -> (r: bool)
        requires
            old(self).wf(),
        ensures
            final(self).wf(),
            r == old(self).paused().contains(code@),
            final(self).last_generation() == old(self).last_generation(),
            final(self).issued() == old(self).issued(),
            final(self).current() == old(self).current(),
            final(self).paused() == old(self).paused().remove(code@),
    {
        let r = self.paused.remove(code);
        proof {
            assert(self.paused() =~= old(self).paused().remove(code@));
        }
        r.is_some()
    }

    /// Should a stopped loop report "sync stopped"? Only the current loop of a
    /// sync that is not paused.
    pub fn should_report_stop(&self, code: &str, generation: u64) -> (r: bool)
        requires
            self.wf(),
        ensures
            r == (self.current().contains_key(code@) && self.current()[code@] == generation
                && !self.paused().contains(code@)),
    {
        self.is_current(code, generation) && !self.is_paused(code)
    }

    /// The sync was removed: forget everything about it.
    pub fn forget(&mut self, code: &str)
        requires
            old(self).wf(),
        ensures
            final(self).wf(),
            final(self).last_generation() == old(self).last_generation(),
            final(self).issued() == old(self).issued(),
            final(self).current() == old(self).current().remove(code@),
            final(self).paused() == old(self).paused().remove(code@),
    {
        let _ = self.current.remove(code);
        let _ = self.paused.remove(code);
        proof {
            assert(self.paused() =~= old(self).paused().remove(code@));
        }
    }
}

impl Default for SyncControl {
    fn default() -> (r: Self)
        ensures
            r.wf(),
            r.last_generation() == 0,
            r.issued() == Set::<u64>::empty(),
            r.current() == Map::<Seq<char>, u64>::empty(),
            r.paused() == Set::<Seq<char>>::empty(),
    {
        SyncControl::new()
    }
}

/// Starting a loop makes every earlier loop of that sync stale: the new
/// generation is larger than every generation handed out before, only the
/// new one is current for that sync, and it is not paused. Loops of other
/// syncs are unaffected.
pub proof fn law_restart_makes_old_loop_stale(
    before: SyncControl,
    after: SyncControl,
    code: Seq<char>,
    other: Seq<char>,
    earlier: u64,
    r: u64,
)
    requires
        before.wf(),
        r == before.last_generation() + 1,
        after.issued() == before.issued().insert(r),
        after.current() == before.current().insert(code, r),
        after.paused() == before.paused().remove(code),
        before.issued().contains(earlier),
        code != other,
    ensures
        earlier < r,
        after.issued().contains(r),
        after.current()[code] == r,
        after.current()[code] != earlier,
        !after.paused().contains(code),
        after.current().contains_key(other) == before.current().contains_key(other),
        before.current().contains_key(other) ==> after.current()[other]
            == before.current()[other],
        after.paused().contains(other) == before.paused().contains(other),
        forall|k: Seq<char>| #[trigger] before.current().contains_key(k) ==> before.current()[k] < r,
{
}

} // verus!
