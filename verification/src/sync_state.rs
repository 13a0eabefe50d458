//! Per-device record of the last successful synchronisation and the
//! three-way pull decision built on it.
//!
//! For every file the device keeps the (size, change time) it had when it was
//! last synchronised: the *base*. Comparing the local file, the base and the
//! remote record tells a local edit, a remote edit and a conflict apart, so a
//! local edit that was not uploaded yet is never overwritten silently.

use vstd::prelude::*;
use crate::text::str_views;
use crate::strmap::StrMap;
use crate::paths::{extension, file_name, file_name_chars, file_stem, parent, parent_chars, push_name, push_name_chars, stem_and_extension};
use crate::text::{chars_of, owned, push_chars, push_str, push_dec, dec, string_of};

verus! {

/// State file written at the root of a sync folder (left out of scans).
pub const STATE_FILE: &'static str = ".connectsync-state.json";

/// Identity of a file version: size and change time in milliseconds.
#[derive(Debug, Clone, Copy, PartialEq, Eq, Structural)]
pub struct FileStat {
    pub size: u64,
    pub modified_ms: u64,
}

/// The last synchronised state of each file on this device.
pub struct SyncState {
    files: StrMap<FileStat>,
}

impl SyncState {
    pub closed spec fn wf(&self) -> bool {
        self.files.wf()
    }

    /// Relative path → base state.
    pub closed spec fn view(&self) -> Map<Seq<char>, FileStat> {
        self.files@
    }

    pub fn new() -> (r: Self)
        ensures
            r.wf(),
            r@ == Map::<Seq<char>, FileStat>::empty(),
    {
        SyncState { files: StrMap::new() }
    }

    pub fn get(&self, rel: &str) -> (r: Option<FileStat>)
        requires
            self.wf(),
        ensures
            r == (if self@.contains_key(rel@) {
                Some(self@[rel@])
            } else {
                None
            }),
    {
        match self.files.get(rel) {
            Some(st) => Some(*st),
            None => None,
        }
    }

    pub fn set(&mut self, rel: &str, stat: FileStat)
        requires
            old(self).wf(),
        ensures
            final(self).wf(),
            final(self)@ == old(self)@.insert(rel@, stat),
            final(self)@.len() == if old(self)@.contains_key(rel@) {
                old(self)@.len()
            } else {
                old(self)@.len() + 1
            },
    {
        proof {
            self.files.lemma_view();
        }
        let k = crate::text::owned(rel);
        self.files.insert(k, stat);
    }

    pub fn remove(&mut self, rel: &str)
        requires
            old(self).wf(),
        ensures
            final(self).wf(),
            final(self)@ == old(self)@.remove(rel@),
            final(self)@.len() == if old(self)@.contains_key(rel@) {
                old(self)@.len() - 1
            } else {
                old(self)@.len() as int
            },
    {
        proof {
            self.files.lemma_view();
        }
        let _ = self.files.remove(rel);
    }

    /// The number of paths with a recorded state (finitely many).
    pub fn len(&self) -> (r: usize)
        requires
            self.wf(),
        ensures
            self@.dom().finite(),
            r == self@.len(),
    {
        proof {
            self.files.lemma_view();
        }
        self.files.len()
    }

    /// Every path with a recorded state.
    pub fn paths(&self) -> (r: Vec<String>)
        requires
            self.wf(),
        ensures
            forall|k: Seq<char>| #[trigger] str_views(r@).contains(k) <==> self@.contains_key(k),
            str_views(r@).len() == self@.len(),
    {
        proof {
            self.files.lemma_view();
        }
        self.files.keys()
    }

    pub fn is_empty(&self) -> (r: bool)
        requires
            self.wf(),
        ensures
            r == (self@.len() == 0),
    {
        self.files.is_empty()
    }
}

impl Default for SyncState {
    fn default() -> (r: Self)
        ensures
            r.wf(),
            r@ == Map::<Seq<char>, FileStat>::empty(),
    {
        SyncState::new()
    }
}

/// What a pull does with one file of the remote manifest.
#[derive(Debug, Clone, Copy, PartialEq, Eq, Structural)]
pub enum PullDecision {
    /// The local file is the remote version.
    UpToDate,
    /// Write the remote version (no local file, or only the remote changed).
    Restore,
    /// Only the local file changed: leave it, the push uploads it.
    KeepLocal,
    /// Both changed, or the base is unknown: leave it and ask the user.
    Conflict,
}

pub open spec fn spec_decide_pull(
    local: Option<FileStat>,
    base: Option<FileStat>,
    remote: FileStat,
    overwrite: bool,
) -> PullDecision {
    match local {
        None => PullDecision::Restore,
        Some(l) => if l == remote {
            PullDecision::UpToDate
        } else if !overwrite {
            PullDecision::KeepLocal
        } else {
            match base {
                None => PullDecision::Conflict,
                Some(b) => if b == l {
                    PullDecision::Restore
                } else if b == remote {
                    PullDecision::KeepLocal
                } else {
                    PullDecision::Conflict
                },
            }
        },
    }
}

/// `local`: the file on this device (`None` if missing); `base`: its state at
/// the last synchronisation; `remote`: its state in the manifest. Without
/// `overwrite` an existing different file is never replaced.
pub fn decide_pull(
    local: Option<FileStat>,
    base: Option<FileStat>,
    remote: FileStat,
    overwrite: bool,
) -> (r: PullDecision)
    ensures
        r == spec_decide_pull(local, base, remote, overwrite),
{
    let local = match local {
        None => {
            return PullDecision::Restore;
        },
        Some(l) => l,
    };
    if local == remote {
        return PullDecision::UpToDate;
    }
    if !overwrite {
        return PullDecision::KeepLocal;
    }
    match base {
        None => PullDecision::Conflict,
        Some(b) => {
            if b == local {
                PullDecision::Restore
            } else if b == remote {
                PullDecision::KeepLocal
            } else {
                PullDecision::Conflict
            }
        },
    }
}

/// Name of the backup copy of a file: `a.txt` with stamp `T` becomes
/// `a (yerel yedek T).txt`; the extension is kept so the copy still opens
/// with the right program. Without a stem the whole input is the stem.
pub open spec fn spec_backup_file_name(name: Seq<char>, stamp: Seq<char>) -> Seq<char> {
    let stem = match file_stem(name) {
        Some(s) => s,
        None => name,
    };
    let tag = stem + " (yerel yedek "@ + stamp + ")"@;
    match extension(name) {
        Some(ext) => tag + "."@ + ext,
        None => tag,
    }
}

pub fn backup_file_name(file_name: &str, stamp: &str) -> (r: String)
    ensures
        r@ == spec_backup_file_name(file_name@, stamp@),
{
    let c = chars_of(file_name);
    let (stem, ext) = stem_and_extension(c.as_slice());
    let mut out = String::new();
    match stem {
        Some(st) => push_chars(&mut out, st.as_slice()),
        None => push_str(&mut out, file_name),
    }
    push_str(&mut out, " (yerel yedek ");
    push_str(&mut out, stamp);
    push_str(&mut out, ")");
    match ext {
        Some(e) => {
            push_str(&mut out, ".");
            push_chars(&mut out, e.as_slice());
        },
        None => {},
    }
    proof {
        let stem_s = match file_stem(file_name@) {
            Some(s) => s,
            None => file_name@,
        };
        let tag = stem_s + " (yerel yedek "@ + stamp@ + ")"@;
        match extension(file_name@) {
            Some(e) => {
                assert(out@ =~= tag + "."@ + e);
            },
            None => {
                assert(out@ =~= tag);
            },
        }
    }
    out
}

/// The stamp of the `n`-th backup made in the same second: the stamp itself
/// for the first, `T (n)` after that.
pub open spec fn spec_backup_stamp(stamp: Seq<char>, n: u64) -> Seq<char> {
    if n <= 1 {
        stamp
    } else {
        stamp + " ("@ + dec(n as nat) + ")"@
    }
}

/// Name of the `n`-th candidate for a backup of `file_name` (counting from
/// 1): the first free candidate beside the file is used.
pub fn backup_candidate_name(file_name: &str, stamp: &str, n: u64) -> (r: String)
    ensures
        r@ == spec_backup_file_name(file_name@, spec_backup_stamp(stamp@, n)),
{
    if n <= 1 {
        return backup_file_name(file_name, stamp);
    }
    let mut st = String::new();
    push_str(&mut st, stamp);
    push_str(&mut st, " (");
    push_dec(&mut st, n);
    push_str(&mut st, ")");
    assert(st@ =~= stamp@ + " ("@ + dec(n as nat) + ")"@);
    backup_file_name(file_name, st.as_str())
}

/// The `n`-th candidate name (from 1) for a backup of `name`.
pub open spec fn backup_candidate(name: Seq<char>, stamp: Seq<char>, n: nat) -> Seq<char> {
    spec_backup_file_name(
        name,
        if n <= 1 {
            stamp
        } else {
            stamp + " ("@ + dec(n) + ")"@
        },
    )
}

proof fn lemma_stamps_differ(stamp: Seq<char>, n: nat, m: nat)
    requires
        1 <= n < m,
    ensures
        (if n <= 1 { stamp } else { stamp + " ("@ + dec(n) + ")"@ }) != (if m <= 1 {
            stamp
        } else {
            stamp + " ("@ + dec(m) + ")"@
        }),
{
    crate::text::lemma_dec(n);
    crate::text::lemma_dec(m);
    reveal_strlit(" (");
    reveal_strlit(")");
    if n > 1 {
        let a = stamp + " ("@ + dec(n) + ")"@;
        let b = stamp + " ("@ + dec(m) + ")"@;
        assert(" ("@.len() == 2 && ")"@.len() == 1);
        assert(a.len() == stamp.len() + 2 + dec(n).len() + 1);
        assert(b.len() == stamp.len() + 2 + dec(m).len() + 1);
        if a == b {
            let p: int = stamp.len() as int + 2;
            assert(dec(n).len() == dec(m).len());
            assert(a.subrange(p, p + dec(n).len() as int) =~= dec(n));
            assert(b.subrange(p, p + dec(m).len() as int) =~= dec(m));
        }
    } else {
        assert((stamp + " ("@ + dec(m) + ")"@).len() > stamp.len());
    }
}

proof fn lemma_backup_names_differ(name: Seq<char>, s1: Seq<char>, s2: Seq<char>)
    requires
        s1 != s2,
    ensures
        spec_backup_file_name(name, s1) != spec_backup_file_name(name, s2),
{
    let stem = match file_stem(name) {
        Some(s) => s,
        None => name,
    };
    let a = spec_backup_file_name(name, s1);
    let b = spec_backup_file_name(name, s2);
    let p: int = stem.len() as int + 14;
    reveal_strlit(" (yerel yedek ");
    reveal_strlit(")");
    reveal_strlit(".");
    assert(" (yerel yedek "@.len() == 14);
    if a == b {
        let t1 = stem + " (yerel yedek "@ + s1 + ")"@;
        let t2 = stem + " (yerel yedek "@ + s2 + ")"@;
        match extension(name) {
            Some(ext) => {
                assert(a == t1 + "."@ + ext);
                assert(b == t2 + "."@ + ext);
                assert(t1.len() == t2.len());
                assert(t1 =~= a.take(t1.len() as int));
                assert(t2 =~= b.take(t2.len() as int));
            },
            None => {},
        }
        assert(t1 == t2);
        assert(")"@.len() == 1);
        assert(t1.len() == stem.len() + 14 + s1.len() + 1);
        assert(t2.len() == stem.len() + 14 + s2.len() + 1);
        assert(s1.len() == s2.len());
        assert(t1.subrange(p, p + s1.len() as int) =~= s1);
        assert(t2.subrange(p, p + s2.len() as int) =~= s2);
    }
}

proof fn lemma_candidates_differ(name: Seq<char>, stamp: Seq<char>, n: nat, m: nat)
    requires
        1 <= n,
        1 <= m,
        n != m,
    ensures
        backup_candidate(name, stamp, n) != backup_candidate(name, stamp, m),
{
    if n < m {
        lemma_stamps_differ(stamp, n, m);
        lemma_backup_names_differ(
            name,
            if n <= 1 { stamp } else { stamp + " ("@ + dec(n) + ")"@ },
            if m <= 1 { stamp } else { stamp + " ("@ + dec(m) + ")"@ },
        );
    } else {
        lemma_stamps_differ(stamp, m, n);
        lemma_backup_names_differ(
            name,
            if m <= 1 { stamp } else { stamp + " ("@ + dec(m) + ")"@ },
            if n <= 1 { stamp } else { stamp + " ("@ + dec(n) + ")"@ },
        );
    }
}

/// Among the first `k + 1` candidates, one lies outside any set of at most
/// `k` names.
proof fn lemma_free_candidate(name: Seq<char>, stamp: Seq<char>, taken: Set<Seq<char>>, k: nat)
    requires
        taken.finite(),
        taken.len() <= k,
    ensures
        exists|n: nat| 1 <= n <= k + 1 && !taken.contains(#[trigger] backup_candidate(name, stamp, n)),
    decreases k,
{
    let last = backup_candidate(name, stamp, k + 1);
    if !taken.contains(last) {
        assert(!taken.contains(backup_candidate(name, stamp, k + 1)));
    } else {
        assert(k > 0) by {
            if k == 0 {
                assert(taken.len() == 0);
                assert(taken =~= Set::<Seq<char>>::empty());
            }
        }
        let rest = taken.remove(last);
        lemma_free_candidate(name, stamp, rest, (k - 1) as nat);
        let n = choose|n: nat| 1 <= n <= k && !rest.contains(#[trigger] backup_candidate(name, stamp, n));
        lemma_candidates_differ(name, stamp, n, k + 1);
        assert(!taken.contains(backup_candidate(name, stamp, n)));
    }
}

/// A backup name beside a file that no file of its folder has yet
/// (`existing` lists the names in the folder): the first free candidate, the
/// plain one first, then `… (2)`, `… (3)` and so on. One of the first
/// `existing.len() + 1` candidates is always free.
pub fn unique_backup_name(file_name: &str, stamp: &str, existing: &Vec<String>) -> (r: String)
    requires
        existing@.len() < u64::MAX,
    ensures
        exists|n: nat|
            1 <= n <= existing@.len() + 1 && r@ == backup_candidate(file_name@, stamp@, n)
                && forall|m: nat| 1 <= m < n ==> str_views(existing@).contains(
                    #[trigger] backup_candidate(file_name@, stamp@, m),
                ),
        !str_views(existing@).contains(r@),
{
    let ghost taken = str_views(existing@).to_set();
    proof {
        str_views(existing@).lemma_cardinality_of_set();
        lemma_free_candidate(file_name@, stamp@, taken, existing@.len());
    }
    let mut n: u64 = 1;
    loop
        invariant
            1 <= n <= existing@.len() + 1,
            existing@.len() < u64::MAX,
            taken == str_views(existing@).to_set(),
            exists|f: nat|
                n <= f <= existing@.len() + 1 && !taken.contains(#[trigger] backup_candidate(file_name@, stamp@, f)),
            forall|m: nat| 1 <= m < n ==> str_views(existing@).contains(
                #[trigger] backup_candidate(file_name@, stamp@, m),
            ),
        decreases existing@.len() + 1 - n,
    {
        let candidate = backup_candidate_name(file_name, stamp, n);
        assert(candidate@ == backup_candidate(file_name@, stamp@, n as nat));
        let mut taken_here = false;
        let mut i: usize = 0;
        while i < existing.len()
            invariant
                i <= existing@.len(),
                taken_here <==> exists|j: int| 0 <= j < i && existing@[j]@ == candidate@,
            decreases existing@.len() - i,
        {
            if crate::text::str_eq(existing[i].as_str(), candidate.as_str()) {
                taken_here = true;
            }
            i = i + 1;
        }
        if !taken_here {
            proof {
                if str_views(existing@).contains(candidate@) {
                    let j = choose|j: int| 0 <= j < str_views(existing@).len() && str_views(existing@)[j] == candidate@;
                    assert(existing@[j]@ == candidate@);
                }
            }
            return candidate;
        }
        proof {
            let j = choose|j: int| 0 <= j < existing@.len() && existing@[j]@ == candidate@;
            assert(str_views(existing@)[j] == candidate@);
            assert(taken.contains(candidate@));
            assert(n < existing@.len() + 1);
            assert forall|m: nat| 1 <= m < n + 1 implies str_views(existing@).contains(
                #[trigger] backup_candidate(file_name@, stamp@, m),
            ) by {
                if m == n {
                    assert(str_views(existing@).contains(candidate@));
                }
            }
        }
        n = n + 1;
    }
}

/// The name a backup of the file at `dest` is made from; `dosya` for a path
/// without a file name.
pub open spec fn backed_up_name(dest: Seq<char>) -> Seq<char> {
    match file_name(dest) {
        Some(n) => n,
        None => "dosya"@,
    }
}

/// The folder a backup of the file at `dest` goes to: its parent, or `.`.
pub open spec fn backup_dir(dest: Seq<char>) -> Seq<char> {
    match parent(dest) {
        Some(p) => p,
        None => "."@,
    }
}

/// Where the backup of the file at `dest` goes: beside it (in `.` when it
/// has no parent), under the first candidate name that none of the folder's
/// names (`existing`) has. A path without a file name counts as `dosya`.
pub fn unique_backup_path(dest: &str, stamp: &str, existing: &Vec<String>) -> (r: String)
    requires
        existing@.len() < u64::MAX,
    ensures
        exists|n: nat|
            1 <= n <= existing@.len() + 1 && r@ == push_name(
                backup_dir(dest@),
                #[trigger] backup_candidate(backed_up_name(dest@), stamp@, n),
            ) && !str_views(existing@).contains(backup_candidate(backed_up_name(dest@), stamp@, n))
                && forall|m: nat| 1 <= m < n ==> str_views(existing@).contains(
                #[trigger] backup_candidate(backed_up_name(dest@), stamp@, m),
            ),
{
    let c = chars_of(dest);
    let name = match file_name_chars(c.as_slice()) {
        Some(n) => string_of(n.as_slice()),
        None => owned("dosya"),
    };
    let dir = match parent_chars(c.as_slice()) {
        Some(p) => p,
        None => chars_of("."),
    };
    let file = unique_backup_name(name.as_str(), stamp, existing);
    let r = string_of(push_name_chars(dir.as_slice(), chars_of(file.as_str()).as_slice()).as_slice());
    proof {
        let n = choose|n: nat|
            1 <= n <= existing@.len() + 1 && file@ == backup_candidate(name@, stamp@, n) && forall|m: nat|
                1 <= m < n ==> str_views(existing@).contains(#[trigger] backup_candidate(name@, stamp@, m));
        assert(r@ == push_name(dir@, backup_candidate(name@, stamp@, n)));
        assert(!str_views(existing@).contains(backup_candidate(name@, stamp@, n)));
        assert(name@ == backed_up_name(dest@));
        assert(dir@ == backup_dir(dest@));
    }
    r
}

/// A file that changed on this device since the last synchronisation, and is
/// not already the remote version, is never overwritten by a pull.
pub proof fn law_pull_never_overwrites_a_local_edit(
    local: FileStat,
    base: Option<FileStat>,
    remote: FileStat,
    overwrite: bool,
)
    requires
        base != Some(local),
        local != remote,
    ensures
        spec_decide_pull(Some(local), base, remote, overwrite) != PullDecision::Restore,
{
}

/// A missing local file is always restored, and an identical one is always up
/// to date, whatever the base and the overwrite flag.
pub proof fn law_pull_restores_missing_and_keeps_identical(
    base: Option<FileStat>,
    remote: FileStat,
    overwrite: bool,
)
    ensures
        spec_decide_pull(None, base, remote, overwrite) == PullDecision::Restore,
        spec_decide_pull(Some(remote), base, remote, overwrite) == PullDecision::UpToDate,
{
}

/// Without `overwrite`, an existing file is only ever kept or reported up to
/// date.
pub proof fn law_pull_without_overwrite_keeps_existing_files(
    local: FileStat,
    base: Option<FileStat>,
    remote: FileStat,
)
    ensures
        spec_decide_pull(Some(local), base, remote, false) == PullDecision::KeepLocal
            || spec_decide_pull(Some(local), base, remote, false) == PullDecision::UpToDate,
{
}

/// A remote-only change (local still at the base) is applied; a local-only
/// change (remote still at the base) is kept for the push.
pub proof fn law_pull_one_sided_changes(base: FileStat, other: FileStat)
    requires
        base != other,
    ensures
        spec_decide_pull(Some(base), Some(base), other, true) == PullDecision::Restore,
        spec_decide_pull(Some(other), Some(base), base, true) == PullDecision::KeepLocal,
{
}

/// Setting a path and reading it back gives the state that was set; other
/// paths are unaffected; removing it makes it unknown again.
pub proof fn law_state_read_after_write(s: Map<Seq<char>, FileStat>, k: Seq<char>, k2: Seq<char>, st: FileStat)
    requires
        k != k2,
    ensures
        s.insert(k, st).contains_key(k) && s.insert(k, st)[k] == st,
        s.insert(k, st).contains_key(k2) == s.contains_key(k2),
        s.contains_key(k2) ==> s.insert(k, st)[k2] == s[k2],
        !s.insert(k, st).remove(k).contains_key(k),
{
}

} // verus!
