//! Bookkeeping of conflicts: files that changed both on this device and
//! elsewhere. The engine never overwrites such a file; this store remembers
//! them per sync, decides when the user must be asked, and remembers a
//! "decide later" answer for exactly the set of files it was given for.

use vstd::prelude::*;
use crate::strmap::StrMap;
use crate::text::{join_prefix, join_strings, join_with, lemma_lex_total_ordering, lex_le, lex_leq, owned, sort_strings, str_eq, str_views, clone_strings};

verus! {

/// At most this many file names are listed in the dialog ("+N more" after).
pub const MAX_LISTED: usize = 4;

/// Order-independent signature of a set of conflicting files: the names in
/// string order, one per line.
pub open spec fn spec_signature(files: Seq<Seq<char>>) -> Seq<char> {
    join_with(files.sort_by(lex_leq()), seq!['\n'])
}

/// The signature of a set of conflicting files (equal sets, equal signatures).
pub fn signature(files: &[String]) -> (r: String)
    ensures
        r@ == spec_signature(str_views(files@)),
{
    let mut v: Vec<String> = Vec::new();
    let mut i: usize = 0;
    while i < files.len()
        invariant
            i <= files@.len(),
            v@ == files@.subrange(0, i as int),
        decreases files@.len() - i,
    {
        v.push(files[i].clone());
        i = i + 1;
        assert(v@ == files@.subrange(0, i as int));
    }
    assert(files@.subrange(0, files@.len() as int) == files@);
    let sorted = sort_strings(&v);
    let r = join_strings(sorted.as_slice(), "\n");
    proof {
        reveal_strlit("\n");
        assert("\n"@ =~= seq!['\n']);
    }
    r
}

/// Two sets holding the same names, in any order, have the same signature.
pub proof fn law_signature_ignores_order(a: Seq<Seq<char>>, b: Seq<Seq<char>>)
    requires
        a.to_multiset() == b.to_multiset(),
    ensures
        spec_signature(a) == spec_signature(b),
{
    lemma_lex_total_ordering();
    a.lemma_sort_by_ensures(lex_leq());
    b.lemma_sort_by_ensures(lex_leq());
    vstd::seq_lib::lemma_sorted_unique(a.sort_by(lex_leq()), b.sort_by(lex_leq()), lex_leq());
}

/// What recording a pull round does to (pending, deferred, dirty).
pub open spec fn spec_record(
    p: Map<Seq<char>, Seq<Seq<char>>>,
    d: Map<Seq<char>, Seq<char>>,
    dirty: bool,
    code: Seq<char>,
    files: Seq<Seq<char>>,
) -> (Map<Seq<char>, Seq<Seq<char>>>, Map<Seq<char>, Seq<char>>, bool) {
    if files.len() == 0 {
        (p.remove(code), d.remove(code), dirty)
    } else {
        let same = d.contains_key(code) && d[code] == spec_signature(files);
        (
            p.insert(code, files.sort_by(lex_leq())),
            if same {
                d
            } else {
                d.remove(code)
            },
            dirty || !same,
        )
    }
}

/// What "decide later" does to the deferrals.
pub open spec fn spec_defer(
    p: Map<Seq<char>, Seq<Seq<char>>>,
    d: Map<Seq<char>, Seq<char>>,
    code: Seq<char>,
) -> Map<Seq<char>, Seq<char>> {
    if p.contains_key(code) {
        d.insert(code, spec_signature(p[code]))
    } else {
        d
    }
}

/// Are the conflicts of `code` to be shown: pending, and not deferred as
/// exactly this set?
pub open spec fn shown_in(
    p: Map<Seq<char>, Seq<Seq<char>>>,
    d: Map<Seq<char>, Seq<char>>,
    code: Seq<char>,
) -> bool {
    p.contains_key(code) && !(d.contains_key(code) && d[code] == spec_signature(p[code]))
}

/// Sorting a set of names does not change its signature.
proof fn lemma_signature_of_sorted(files: Seq<Seq<char>>)
    ensures
        spec_signature(files.sort_by(lex_leq())) == spec_signature(files),
{
    lemma_lex_total_ordering();
    files.lemma_sort_by_ensures(lex_leq());
    law_signature_ignores_order(files.sort_by(lex_leq()), files);
}

/// After "decide later", the next round that reports the same set of files
/// (in any order) neither shows it again nor asks for attention.
pub proof fn law_deferred_set_is_not_asked_again(
    p: Map<Seq<char>, Seq<Seq<char>>>,
    d: Map<Seq<char>, Seq<char>>,
    dirty: bool,
    code: Seq<char>,
    files: Seq<Seq<char>>,
)
    requires
        p.contains_key(code),
        files.len() > 0,
        files.to_multiset() == p[code].to_multiset(),
    ensures
        ({
            let (p2, d2, dirty2) = spec_record(p, spec_defer(p, d, code), dirty, code, files);
            !shown_in(p2, d2, code) && dirty2 == dirty
        }),
{
    law_signature_ignores_order(files, p[code]);
    lemma_signature_of_sorted(files);
}

/// A round that reports a set other than the deferred one asks again: it is
/// shown and the dialog is flagged.
pub proof fn law_changed_set_is_asked_again(
    p: Map<Seq<char>, Seq<Seq<char>>>,
    d: Map<Seq<char>, Seq<char>>,
    dirty: bool,
    code: Seq<char>,
    files: Seq<Seq<char>>,
)
    requires
        files.len() > 0,
        !(d.contains_key(code) && d[code] == spec_signature(files)),
    ensures
        ({
            let (p2, d2, dirty2) = spec_record(p, d, dirty, code, files);
            shown_in(p2, d2, code) && dirty2
        }),
{
}

/// A round without conflicts clears both the pending set and its deferral.
pub proof fn law_empty_report_clears(
    p: Map<Seq<char>, Seq<Seq<char>>>,
    d: Map<Seq<char>, Seq<char>>,
    dirty: bool,
    code: Seq<char>,
)
    ensures
        ({
            let (p2, d2, dirty2) = spec_record(p, d, dirty, code, Seq::empty());
            !p2.contains_key(code) && !d2.contains_key(code) && !shown_in(p2, d2, code)
        }),
{
}

pub struct ConflictStore {
    /// sync code → conflicting relative paths, sorted
    pending: StrMap<Vec<String>>,
    /// sync code → signature of the set the user chose to decide later
    deferred: StrMap<String>,
    /// the dialog must be (re)shown
    dirty: bool,
}

impl ConflictStore {
    pub closed spec fn wf(&self) -> bool {
        &&& self.pending.wf()
        &&& self.deferred.wf()
        &&& forall|k: Seq<char>| #[trigger]
            self.pending@.contains_key(k) ==> self.pending@[k]@.len() > 0
    }

    /// A sync with pending conflicts has at least one conflicting file: a
    /// round without conflicts removes the sync's entry.
    pub proof fn lemma_pending_never_empty(&self)
        requires
            self.wf(),
        ensures
            forall|k: Seq<char>| #[trigger]
                self.pending().contains_key(k) ==> self.pending()[k].len() > 0,
    {
        assert forall|k: Seq<char>| #[trigger] self.pending().contains_key(k) implies self.pending()[k].len() > 0 by {
            assert(self.pending@.contains_key(k));
        }
    }

    /// Sync code → its pending conflicting paths (sorted).
    pub closed spec fn pending(&self) -> Map<Seq<char>, Seq<Seq<char>>> {
        Map::new(
            |k: Seq<char>| self.pending@.contains_key(k),
            |k: Seq<char>| str_views(self.pending@[k]@),
        )
    }

    /// Sync code → signature of the set deferred by the user.
    pub closed spec fn deferred(&self) -> Map<Seq<char>, Seq<char>> {
        Map::new(|k: Seq<char>| self.deferred@.contains_key(k), |k: Seq<char>| self.deferred@[k]@)
    }

    pub closed spec fn dirty(&self) -> bool {
        self.dirty
    }

    /// Should the conflicts of `code` be shown: pending, and not deferred as
    /// exactly this set.
    pub open spec fn is_shown(&self, code: Seq<char>) -> bool {
        shown_in(self.pending(), self.deferred(), code)
    }

    pub open spec fn any_shown(&self) -> bool {
        exists|c: Seq<char>| self.is_shown(c)
    }

    pub fn new() -> (r: Self)
        ensures
            r.wf(),
            r.pending() == Map::<Seq<char>, Seq<Seq<char>>>::empty(),
            r.deferred() == Map::<Seq<char>, Seq<char>>::empty(),
            !r.dirty(),
    {
        let r = ConflictStore { pending: StrMap::new(), deferred: StrMap::new(), dirty: false };
        assert(r.pending() =~= Map::<Seq<char>, Seq<Seq<char>>>::empty());
        assert(r.deferred() =~= Map::<Seq<char>, Seq<char>>::empty());
        r
    }

    /// Records the result of one pull round of `code`. An empty list means
    /// the sync has no conflicts left: its entry and its deferral go. A set
    /// that differs from the deferred one asks the user again.
    pub fn record(&mut self, code: &str, files: Vec<String>)
        requires
            old(self).wf(),
        ensures
            final(self).wf(),
            files@.len() == 0 ==> {
                &&& final(self).pending() == old(self).pending().remove(code@)
                &&& final(self).deferred() == old(self).deferred().remove(code@)
                &&& final(self).dirty() == old(self).dirty()
            },
            files@.len() > 0 ==> {
                let same = old(self).deferred().contains_key(code@) && old(self).deferred()[code@]
                    == spec_signature(str_views(files@));
                &&& final(self).pending() == old(self).pending().insert(
                    code@,
                    str_views(files@).sort_by(lex_leq()),
                )
                &&& final(self).deferred() == (if same {
                    old(self).deferred()
                } else {
                    old(self).deferred().remove(code@)
                })
                &&& final(self).dirty() == (old(self).dirty() || !same)
            },
            (final(self).pending(), final(self).deferred(), final(self).dirty()) == spec_record(
                old(self).pending(),
                old(self).deferred(),
                old(self).dirty(),
                code@,
                str_views(files@),
            ),
    {
        if files.len() == 0 {
            let _ = self.pending.remove(code);
            let _ = self.deferred.remove(code);
            proof {
                assert(self.pending() =~= old(self).pending().remove(code@));
                assert(self.deferred() =~= old(self).deferred().remove(code@));
            }
            return;
        }
        let sig = signature(files.as_slice());
        let sorted = sort_strings(&files);
        proof {
            lemma_lex_total_ordering();
            str_views(files@).lemma_sort_by_ensures(lex_leq());
            str_views(files@).to_multiset_ensures();
            str_views(files@).sort_by(lex_leq()).to_multiset_ensures();
            assert(str_views(sorted@).len() == str_views(files@).len());
        }
        let deferred_same = match self.deferred.get(code) {
            Some(d) => str_eq(d.as_str(), sig.as_str()),
            None => false,
        };
        self.pending.insert(owned(code), sorted);
        if !deferred_same {
            let _ = self.deferred.remove(code);
            self.dirty = true;
        }
        proof {
            assert(self.pending() =~= old(self).pending().insert(
                code@,
                str_views(files@).sort_by(lex_leq()),
            ));
            if !deferred_same {
                assert(self.deferred() =~= old(self).deferred().remove(code@));
            } else {
                assert(self.deferred() =~= old(self).deferred());
            }
        }
    }

    /// "Decide later": do not ask again for the current set of `code`.
    pub fn defer(&mut self, code: &str)
        requires
            old(self).wf(),
        ensures
            final(self).wf(),
            final(self).pending() == old(self).pending(),
            final(self).dirty() == old(self).dirty(),
            final(self).deferred() == spec_defer(old(self).pending(), old(self).deferred(), code@),
    {
        let sig = match self.pending.get(code) {
            Some(files) => Some(signature(files.as_slice())),
            None => None,
        };
        if let Some(s) = sig {
            self.deferred.insert(owned(code), s);
            proof {
                assert(self.deferred() =~= old(self).deferred().insert(
                    code@,
                    spec_signature(old(self).pending()[code@]),
                ));
            }
        }
        proof {
            assert(self.pending() =~= old(self).pending());
        }
    }

    /// The user's choice was applied to every file of `code`.
    pub fn resolved(&mut self, code: &str)
        requires
            old(self).wf(),
        ensures
            final(self).wf(),
            final(self).pending() == old(self).pending().remove(code@),
            final(self).deferred() == old(self).deferred().remove(code@),
            final(self).dirty() == old(self).dirty(),
    {
        let _ = self.pending.remove(code);
        let _ = self.deferred.remove(code);
        proof {
            assert(self.pending() =~= old(self).pending().remove(code@));
            assert(self.deferred() =~= old(self).deferred().remove(code@));
        }
    }

    /// The pending files of `code` (none if it has no conflicts).
    pub fn files(&self, code: &str) -> (r: Vec<String>)
        requires
            self.wf(),
        ensures
            str_views(r@) == (if self.pending().contains_key(code@) {
                self.pending()[code@]
            } else {
                Seq::empty()
            }),
    {
        match self.pending.get(code) {
            Some(v) => clone_strings(v),
            None => {
                let r: Vec<String> = Vec::new();
                assert(str_views(r@) =~= Seq::<Seq<char>>::empty());
                r
            },
        }
    }

    pub fn count(&self, code: &str) -> (r: usize)
        requires
            self.wf(),
        ensures
            r == (if self.pending().contains_key(code@) {
                self.pending()[code@].len()
            } else {
                0
            }),
    {
        match self.pending.get(code) {
            Some(v) => v.len(),
            None => 0,
        }
    }

    /// The first conflict set to show: the smallest sync code (in string
    /// order) whose current set is not deferred.
    pub fn next_to_show(&self) -> (r: Option<(&str, &[String])>)
        requires
            self.wf(),
        ensures
            match r {
                Some((c, f)) => {
                    &&& self.is_shown(c@)
                    &&& str_views(f@) == self.pending()[c@]
                    &&& forall|c2: Seq<char>| #[trigger] self.is_shown(c2) ==> lex_le(c@, c2)
                },
                None => !self.any_shown(),
            },
    {
        let keys = self.pending.keys();
        let codes = sort_strings(&keys);
        proof {
            lemma_lex_total_ordering();
            str_views(keys@).lemma_sort_by_ensures(lex_leq());
            self.pending.lemma_view();
        }
        let ghost sv = str_views(codes@);
        let mut i: usize = 0;
        while i < codes.len()
            invariant
                self.wf(),
                i <= codes@.len(),
                sv == str_views(codes@),
                sv == str_views(keys@).sort_by(lex_leq()),
                str_views(keys@) == self.pending.key_order(),
                str_views(keys@).to_multiset() =~= sv.to_multiset(),
                vstd::relations::sorted_by(sv, lex_leq()),
                forall|k: Seq<char>| #[trigger]
                    self.pending@.contains_key(k) <==> self.pending.key_order().contains(k),
                forall|j: int| 0 <= j < i ==> !self.is_shown(#[trigger] sv[j]),
            decreases codes@.len() - i,
        {
            let code = codes[i].as_str();
            proof {
                assert(sv[i as int] == code@);
                assert(sv.contains(code@));
                vstd::seq_lib::to_multiset_contains(sv, code@);
                vstd::seq_lib::to_multiset_contains(str_views(keys@), code@);
            }
            match self.pending.get_key_value(code) {
                Some(kv) => {
                    let (k, files) = kv;
                    let sig = signature(files.as_slice());
                    let same = match self.deferred.get(code) {
                        Some(d) => str_eq(d.as_str(), sig.as_str()),
                        None => false,
                    };
                    if !same {
                        proof {
                            assert(self.is_shown(code@));
                            assert forall|c2: Seq<char>| #[trigger] self.is_shown(c2) implies lex_le(
                                code@,
                                c2,
                            ) by {
                                assert(self.pending.key_order().contains(c2));
                                vstd::seq_lib::to_multiset_contains(str_views(keys@), c2);
                                vstd::seq_lib::to_multiset_contains(sv, c2);
                                let m = choose|m: int| 0 <= m < sv.len() && sv[m] == c2;
                                if m < i {
                                    assert(!self.is_shown(sv[m]));
                                } else if m > i {
                                    assert(lex_leq()(sv[i as int], sv[m]));
                                }
                            }
                        }
                        return Some((k.as_str(), files.as_slice()));
                    }
                },
                None => {},
            }
            i = i + 1;
        }
        proof {
            assert forall|c2: Seq<char>| !self.is_shown(c2) by {
                if self.is_shown(c2) {
                    assert(self.pending.key_order().contains(c2));
                    vstd::seq_lib::to_multiset_contains(str_views(keys@), c2);
                    vstd::seq_lib::to_multiset_contains(sv, c2);
                    let m = choose|m: int| 0 <= m < sv.len() && sv[m] == c2;
                    assert(!self.is_shown(sv[m]));
                }
            }
        }
        None
    }

    /// Does the user need to be brought in (window raised)?
    pub fn needs_attention(&self) -> (r: bool)
        requires
            self.wf(),
        ensures
            r == (self.dirty() && self.any_shown()),
    {
        self.dirty && self.next_to_show().is_some()
    }

    /// Reads and clears the "show again" flag.
    pub fn take_dirty(&mut self) -> (r: bool)
        requires
            old(self).wf(),
        ensures
            final(self).wf(),
            r == old(self).dirty(),
            !final(self).dirty(),
            final(self).pending() == old(self).pending(),
            final(self).deferred() == old(self).deferred(),
    {
        let r = self.dirty;
        self.dirty = false;
        r
    }

    /// Another set is still waiting: show the dialog again.
    pub fn mark_dirty_if_more(&mut self)
        requires
            old(self).wf(),
        ensures
            final(self).wf(),
            final(self).dirty() == (old(self).dirty() || old(self).any_shown()),
            final(self).pending() == old(self).pending(),
            final(self).deferred() == old(self).deferred(),
    {
        if self.next_to_show().is_some() {
            self.dirty = true;
        }
    }
}

impl Default for ConflictStore {
    fn default() -> (r: Self)
        ensures
            r.wf(),
            r.pending() == Map::<Seq<char>, Seq<Seq<char>>>::empty(),
            r.deferred() == Map::<Seq<char>, Seq<char>>::empty(),
            !r.dirty(),
    {
        ConflictStore::new()
    }
}

/// "Decide later" for a sync without conflicting files changes nothing.
pub proof fn law_defer_without_conflicts_changes_nothing(store: ConflictStore, code: Seq<char>)
    requires
        store.wf(),
        !(store.pending().contains_key(code) && store.pending()[code].len() > 0),
    ensures
        spec_defer(store.pending(), store.deferred(), code) == store.deferred(),
        !store.is_shown(code),
{
    store.lemma_pending_never_empty();
}

/// Preview for the dialog: at most `max` names, one per line, and how many
/// were left out.
pub fn list_preview(files: &[String], max: usize) -> (r: (String, usize))
    ensures
        r.0@ == join_with(
            str_views(files@.subrange(0, if files@.len() < max {
                files@.len() as int
            } else {
                max as int
            })),
            seq!['\n'],
        ),
        r.1 == (if files@.len() > max {
            files@.len() - max
        } else {
            0
        }),
{
    let n = if files.len() < max {
        files.len()
    } else {
        max
    };
    let shown = join_prefix(files, n, "\n");
    proof {
        reveal_strlit("\n");
        assert("\n"@ =~= seq!['\n']);
    }
    let more = if files.len() > max {
        files.len() - max
    } else {
        0
    };
    (shown, more)
}

} // verus!
