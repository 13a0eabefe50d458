//! Decisions of the desktop window that do not touch the window itself:
//! which Drive syncs are not on this computer yet, what a folder's status
//! line says during and after a round, and how long the background scan of
//! Drive waits.

use vstd::prelude::*;
use crate::config::SyncFolder;
use crate::progress::{Snapshot, PHASE_PREPARE, PHASE_PULL, PHASE_PUSH};
use crate::text::{chars_of, chars_starts_with, owned, push_chars, push_str, rfind_char, rfind_chars, slice_chars, starts_with, str_eq, string_of, trim, trim_chars};
use crate::drive::{contains_text, occurs_in};
use crate::engine::SyncReport;
use crate::strmap::StrMap;
use vstd::utf8::{decode_utf8, encode_utf8, is_char_boundary};
use vstd::string::StringSliceAdditionalSpecFns;
use crate::drive_missing::{drive_folder_name, folder_name_bytes, folder_name_prefix};

verus! {

pub open spec fn cs_prefix() -> Seq<char> {
    seq!['c', 's', '-']
}

/// The Drive folder id inside a sync code `cs-{folderId}-{hexKey}`: what
/// lies between the prefix and the last `-` (folder ids may hold dashes).
/// Anything else is taken as an id already.
pub open spec fn spec_drive_folder_id(c: Seq<char>) -> Seq<char> {
    if starts_with(c, cs_prefix()) {
        let rest = c.skip(3);
        match rfind_char(rest, '-') {
            Some(p) => rest.take(p),
            None => c,
        }
    } else {
        c
    }
}

pub fn drive_folder_id(code: &str) -> (r: String)
    ensures
        r@ == spec_drive_folder_id(code@),
{
    let c = chars_of(code);
    let pre = chars_of("cs-");
    proof {
        reveal_strlit("cs-");
        assert(pre@ =~= cs_prefix());
    }
    if !chars_starts_with(c.as_slice(), pre.as_slice()) {
        return owned(code);
    }
    let rest = slice_chars(c.as_slice(), 3, c.len());
    assert(rest@ =~= c@.skip(3));
    match rfind_chars(rest.as_slice(), '-') {
        Some(p) => {
            proof {
                crate::text::lemma_rfind_char(rest@, '-');
            }
            let f = slice_chars(rest.as_slice(), 0, p);
            assert(f@ =~= rest@.take(p as int));
            string_of(f.as_slice())
        },
        None => owned(code),
    }
}

/// The code a folder of this computer is known by: its sync code, or its id
/// for folders saved without one.
pub open spec fn local_code(f: SyncFolder) -> Seq<char> {
    if f.code@.len() == 0 {
        f.id@
    } else {
        f.code@
    }
}

/// Is a Drive sync (by its code) already on this computer?
pub open spec fn is_local(folders: Seq<SyncFolder>, code: Seq<char>) -> bool {
    exists|i: int|
        0 <= i < folders.len() && spec_drive_folder_id(local_code(#[trigger] folders[i]))
            == spec_drive_folder_id(code)
}

/// The Drive syncs not added to this computer, in the order found.
pub open spec fn spec_cloud_only(folders: Seq<SyncFolder>, items: Seq<(String, String)>) -> Seq<
    (String, String),
>
    decreases items.len(),
{
    if items.len() == 0 {
        Seq::empty()
    } else {
        let p = spec_cloud_only(folders, items.drop_last());
        if is_local(folders, items.last().0@) {
            p
        } else {
            p.push(items.last())
        }
    }
}

fn folder_is_local(folders: &Vec<SyncFolder>, code: &str) -> (r: bool)
    ensures
        r == is_local(folders@, code@),
{
    let id = drive_folder_id(code);
    let mut i: usize = 0;
    while i < folders.len()
        invariant
            i <= folders@.len(),
            id@ == spec_drive_folder_id(code@),
            forall|j: int|
                0 <= j < i ==> spec_drive_folder_id(local_code(#[trigger] folders@[j])) != id@,
        decreases folders@.len() - i,
    {
        let f = &folders[i];
        let own = if f.code.as_str().is_empty() {
            drive_folder_id(f.id.as_str())
        } else {
            drive_folder_id(f.code.as_str())
        };
        if str_eq(own.as_str(), id.as_str()) {
            return true;
        }
        i = i + 1;
    }
    false
}

/// Drive syncs (code, name) that are not on this computer yet.
pub fn cloud_only(folders: &Vec<SyncFolder>, cloud_items: &Vec<(String, String)>) -> (r: Vec<
    (String, String),
>)
    ensures
        r@ == spec_cloud_only(folders@, cloud_items@),
{
    let mut r: Vec<(String, String)> = Vec::new();
    let mut i: usize = 0;
    assert(cloud_items@.take(0) =~= Seq::<(String, String)>::empty());
    while i < cloud_items.len()
        invariant
            i <= cloud_items@.len(),
            r@ == spec_cloud_only(folders@, cloud_items@.take(i as int)),
        decreases cloud_items@.len() - i,
    {
        assert(cloud_items@.take(i + 1).drop_last() =~= cloud_items@.take(i as int));
        let item = &cloud_items[i];
        if !folder_is_local(folders, item.0.as_str()) {
            r.push((item.0.clone(), item.1.clone()));
        }
        i = i + 1;
    }
    assert(cloud_items@.take(cloud_items@.len() as int) =~= cloud_items@);
    r
}

/// A folder's row while syncing.
pub struct FolderState {
    pub status: String,
    pub is_syncing: bool,
    pub error: String,
}

impl Default for FolderState {
    fn default() -> (r: Self)
        ensures
            r.status@.len() == 0 && !r.is_syncing && r.error@.len() == 0,
    {
        FolderState { status: String::new(), is_syncing: false, error: String::new() }
    }
}

impl FolderState {
    /// The text of the row: the error while there is one, else the status.
    pub fn shown_status(&self) -> (r: String)
        ensures
            r@ == if self.error@.len() == 0 {
                self.status@
            } else {
                self.error@
            },
    {
        if self.error.as_str().is_empty() {
            self.status.clone()
        } else {
            self.error.clone()
        }
    }
}

/// The status line's text key for the engine's phase: while preparing,
/// "checking"; pulling or pushing is named only when files really move
/// (the engine starts these phases with zero files too); idle leaves the
/// line as it is.
pub open spec fn spec_phase_status_key(phase: u8, total_files: u64) -> Option<Seq<char>> {
    if phase == PHASE_PULL && total_files > 0 {
        Some("status_pulling"@)
    } else if phase == PHASE_PUSH && total_files > 0 {
        Some("status_uploading"@)
    } else if phase == PHASE_PREPARE || phase == PHASE_PULL || phase == PHASE_PUSH {
        Some("status_checking"@)
    } else {
        None
    }
}

pub fn phase_status_key(s: &Snapshot) -> (r: Option<&'static str>)
    ensures
        match r {
            Some(k) => spec_phase_status_key(s.phase, s.total_files) == Some(k@),
            None => spec_phase_status_key(s.phase, s.total_files) is None,
        },
{
    if s.phase == PHASE_PULL && s.total_files > 0 {
        Some("status_pulling")
    } else if s.phase == PHASE_PUSH && s.total_files > 0 {
        Some("status_uploading")
    } else if s.phase == PHASE_PREPARE || s.phase == PHASE_PULL || s.phase == PHASE_PUSH {
        Some("status_checking")
    } else {
        None
    }
}

/// While a round runs, the status line is rewritten only when the phase's
/// text key differs from the one shown last (`last`): the key to show now,
/// or `None` to leave the line alone.
pub fn status_change(last: Option<&str>, s: &Snapshot) -> (r: Option<&'static str>)
    ensures
        match spec_phase_status_key(s.phase, s.total_files) {
            Some(k) => match last {
                Some(l) => if l@ == k {
                    r is None
                } else {
                    r matches Some(x) && x@ == k
                },
                None => r matches Some(x) && x@ == k,
            },
            None => r is None,
        },
{
    match phase_status_key(s) {
        Some(key) => match last {
            Some(l) => if str_eq(l, key) {
                None
            } else {
                Some(key)
            },
            None => Some(key),
        },
        None => None,
    }
}

/// The status after a round: (text key, the `{n}` value). Failures come
/// first; then the number of changed files; "no difference" when nothing
/// changed.
pub fn final_sync_message(pulled: usize, uploaded: usize, removed: usize, failed: usize) -> (r: (
    &'static str,
    Option<usize>,
))
    requires
        pulled + uploaded + removed <= usize::MAX,
    ensures
        failed > 0 ==> r.0@ == "status_files_failed"@ && r.1 == Some(failed),
        failed == 0 && pulled + uploaded + removed > 0 ==> r.0@ == "status_files_updated"@ && r.1
            == Some((pulled + uploaded + removed) as usize),
        failed == 0 && pulled + uploaded + removed == 0 ==> r.0@ == "status_no_diff"@ && r.1 is None,
{
    if failed > 0 {
        return ("status_files_failed", Some(failed));
    }
    let changed = pulled + uploaded + removed;
    if changed > 0 {
        ("status_files_updated", Some(changed))
    } else {
        ("status_no_diff", None)
    }
}

/// First wait after a failed background scan of Drive, in milliseconds.
pub const CLOUD_SCAN_RETRY_BASE_MS: u64 = 30_000;

pub open spec fn pow2_upto6(e: u32) -> int {
    if e == 0 {
        1
    } else if e == 1 {
        2
    } else if e == 2 {
        4
    } else if e == 3 {
        8
    } else if e == 4 {
        16
    } else if e == 5 {
        32
    } else {
        64
    }
}

/// The wait before the next background scan: the check interval after a
/// success; after failures, 30 s doubling with each further failure (at
/// most six doublings), never longer than the interval.
pub open spec fn spec_next_scan_delay(interval: u64, failures: u32) -> int {
    if failures == 0 {
        interval as int
    } else {
        let e: u32 = if failures - 1 > 6 {
            6
        } else {
            (failures - 1) as u32
        };
        let d = CLOUD_SCAN_RETRY_BASE_MS * pow2_upto6(e);
        if d < interval {
            d
        } else {
            interval as int
        }
    }
}

/// Milliseconds until the next scan of Drive.
pub fn next_scan_delay(interval_ms: u64, consecutive_failures: u32) -> (r: u64)
    ensures
        r == spec_next_scan_delay(interval_ms, consecutive_failures),
{
    if consecutive_failures == 0 {
        return interval_ms;
    }
    let e: u32 = if consecutive_failures - 1 > 6 {
        6
    } else {
        consecutive_failures - 1
    };
    let factor: u64 = if e == 0 {
        1
    } else if e == 1 {
        2
    } else if e == 2 {
        4
    } else if e == 3 {
        8
    } else if e == 4 {
        16
    } else if e == 5 {
        32
    } else {
        64
    };
    let d = CLOUD_SCAN_RETRY_BASE_MS * factor;
    if d < interval_ms {
        d
    } else {
        interval_ms
    }
}

/// More failures never shorten the wait, and it never exceeds the interval.
pub proof fn law_scan_delay_backs_off_within_interval(interval: u64, a: u32, b: u32)
    requires
        1 <= a <= b,
    ensures
        spec_next_scan_delay(interval, a) <= spec_next_scan_delay(interval, b),
        spec_next_scan_delay(interval, b) <= interval,
        interval > 0 ==> spec_next_scan_delay(interval, b) > 0,
{
}

/// The name shown for a Drive folder found by the scan: leading
/// `ConnectSync_` prefixes are dropped.
pub open spec fn strip_folder_prefix(name: Seq<char>) -> Seq<char>
    decreases name.len(),
{
    if name.len() >= 12 && starts_with(name, "ConnectSync_"@) {
        strip_folder_prefix(name.skip(12))
    } else {
        name
    }
}

/// A Drive sync whose key is known: its code `cs-{folderId}-{hexKey}` and
/// its shown name.
pub fn cloud_item(folder_id: &str, hex_key: &str, name: &str) -> (r: (String, String))
    ensures
        r.0@ == "cs-"@ + folder_id@ + "-"@ + hex_key@,
        r.1@ == strip_folder_prefix(name@),
{
    let mut code = owned("cs-");
    push_str(&mut code, folder_id);
    push_str(&mut code, "-");
    push_str(&mut code, hex_key);
    let pre = chars_of("ConnectSync_");
    proof {
        reveal_strlit("ConnectSync_");
    }
    let c = chars_of(name);
    let mut start: usize = 0;
    assert(c@.skip(0) =~= c@);
    while c.len() - start >= 12 && chars_starts_with(
        slice_chars(c.as_slice(), start, c.len()).as_slice(),
        pre.as_slice(),
    )
        invariant
            start <= c@.len(),
            pre@ == "ConnectSync_"@,
            strip_folder_prefix(c@) == strip_folder_prefix(c@.skip(start as int)),
        decreases c@.len() - start,
    {
        assert(c@.skip(start as int).skip(12) =~= c@.skip(start + 12));
        start = start + 12;
    }
    let shown = slice_chars(c.as_slice(), start, c.len());
    assert(shown@ =~= c@.skip(start as int));
    (code, string_of(shown.as_slice()))
}

/// A code `cs-{folderId}-{hexKey}` split at its last `-` after the prefix
/// (either part may be empty here).
pub open spec fn spec_code_split(c: Seq<char>) -> Option<(Seq<char>, Seq<char>)> {
    if starts_with(c, cs_prefix()) {
        match rfind_char(c.skip(3), '-') {
            Some(p) => Some((c.skip(3).take(p), c.skip(3).skip(p + 1))),
            None => None,
        }
    } else {
        None
    }
}

/// A sync of this computer whose key the Drive key registry lacks (an older
/// version may have failed to store it): its folder id and key, to be
/// stored. `None` when the registry has the folder or the code names none.
pub fn key_to_register(folder: &SyncFolder, registry: &StrMap<String>) -> (r: Option<(String, String)>)
    requires
        registry.wf(),
    ensures
        match spec_code_split(local_code(*folder)) {
            Some((f, k)) => if registry@.contains_key(f) {
                r is None
            } else {
                r matches Some((rf, rk)) && rf@ == f && rk@ == k
            },
            None => r is None,
        },
{
    let code = if folder.code.as_str().is_empty() {
        folder.id.as_str()
    } else {
        folder.code.as_str()
    };
    let c = chars_of(code);
    let pre = chars_of("cs-");
    proof {
        reveal_strlit("cs-");
        assert(pre@ =~= cs_prefix());
    }
    if !chars_starts_with(c.as_slice(), pre.as_slice()) {
        return None;
    }
    let rest = slice_chars(c.as_slice(), 3, c.len());
    assert(rest@ =~= c@.skip(3));
    match rfind_chars(rest.as_slice(), '-') {
        Some(p) => {
            proof {
                crate::text::lemma_rfind_char(rest@, '-');
            }
            let f = string_of(slice_chars(rest.as_slice(), 0, p).as_slice());
            let k = string_of(slice_chars(rest.as_slice(), p + 1, rest.len()).as_slice());
            assert(f@ =~= rest@.take(p as int));
            assert(k@ =~= rest@.skip(p + 1));
            if registry.contains_key(f.as_str()) {
                None
            } else {
                Some((f, k))
            }
        },
        None => None,
    }
}

/// The Drive syncs whose key the registry holds, as (code, shown name), in
/// the order Drive listed the folders; folders without a key are left out.
pub open spec fn spec_cloud_items(listed: Seq<(String, String)>, registry: Map<Seq<char>, String>) -> Seq<
    (Seq<char>, Seq<char>),
>
    decreases listed.len(),
{
    if listed.len() == 0 {
        Seq::empty()
    } else {
        let p = spec_cloud_items(listed.drop_last(), registry);
        let (fid, name) = listed.last();
        if registry.contains_key(fid@) {
            p.push(("cs-"@ + fid@ + "-"@ + registry[fid@]@, strip_folder_prefix(name@)))
        } else {
            p
        }
    }
}

pub fn cloud_items(listed: &Vec<(String, String)>, registry: &StrMap<String>) -> (r: Vec<(String, String)>)
    requires
        registry.wf(),
    ensures
        pair_views(r@) == spec_cloud_items(listed@, registry@),
{
    let mut r: Vec<(String, String)> = Vec::new();
    let mut i: usize = 0;
    assert(listed@.take(0) =~= Seq::<(String, String)>::empty());
    assert(pair_views(r@) =~= Seq::<(Seq<char>, Seq<char>)>::empty());
    while i < listed.len()
        invariant
            i <= listed@.len(),
            registry.wf(),
            pair_views(r@) == spec_cloud_items(listed@.take(i as int), registry@),
        decreases listed@.len() - i,
    {
        assert(listed@.take(i + 1).drop_last() =~= listed@.take(i as int));
        assert(listed@.take(i + 1).last() == listed@[i as int]);
        let (fid, name) = (&listed[i].0, &listed[i].1);
        match registry.get(fid.as_str()) {
            Some(key) => {
                let item = cloud_item(fid.as_str(), key.as_str(), name.as_str());
                let ghost before = r@;
                r.push(item);
                assert(pair_views(r@) =~= pair_views(before).push((item.0@, item.1@)));
            },
            None => {},
        }
        i = i + 1;
    }
    assert(listed@.take(listed@.len() as int) =~= listed@);
    r
}

pub open spec fn pair_views(v: Seq<(String, String)>) -> Seq<(Seq<char>, Seq<char>)> {
    Seq::new(v.len(), |i: int| (v[i].0@, v[i].1@))
}

/// Stores a new result of the background scan; the window is marked for a
/// refresh only when the list really changed.
pub fn publish_cloud_items(
    current: &mut Vec<(String, String)>,
    dirty: &mut bool,
    items: Vec<(String, String)>,
)
    ensures
        pair_views(final(current)@) == pair_views(items@),
        pair_views(old(current)@) != pair_views(items@) ==> *final(dirty),
        pair_views(old(current)@) == pair_views(items@) ==> *final(dirty) == *old(dirty)
            && final(current)@ == old(current)@,
{
    let mut same = current.len() == items.len();
    assert(!same ==> pair_views(current@).len() != pair_views(items@).len());
    let mut i: usize = 0;
    while same && i < items.len()
        invariant
            same ==> current@.len() == items@.len(),
            i <= items@.len(),
            same ==> forall|j: int|
                0 <= j < i ==> (#[trigger] current@[j]).0@ == items@[j].0@ && current@[j].1@
                    == items@[j].1@,
            !same ==> pair_views(current@) != pair_views(items@),
        decreases items@.len() - i,
    {
        if !str_eq(current[i].0.as_str(), items[i].0.as_str()) || !str_eq(
            current[i].1.as_str(),
            items[i].1.as_str(),
        ) {
            assert(pair_views(current@)[i as int] != pair_views(items@)[i as int]);
            same = false;
        }
        i = i + 1;
    }
    if same {
        assert(pair_views(current@) =~= pair_views(items@));
        return;
    }
    *current = items;
    *dirty = true;
}

/// Is a Drive sync already configured here (by its folder id)?
pub open spec fn spec_is_added(folders: Seq<SyncFolder>, code: Seq<char>) -> bool {
    exists|i: int|
        0 <= i < folders.len() && spec_drive_folder_id((#[trigger] folders[i]).id@)
            == spec_drive_folder_id(code)
}

pub fn is_added(folders: &Vec<SyncFolder>, code: &str) -> (r: bool)
    ensures
        r == spec_is_added(folders@, code@),
{
    let id = drive_folder_id(code);
    let mut i: usize = 0;
    while i < folders.len()
        invariant
            i <= folders@.len(),
            id@ == spec_drive_folder_id(code@),
            forall|j: int|
                0 <= j < i ==> spec_drive_folder_id((#[trigger] folders@[j]).id@) != id@,
        decreases folders@.len() - i,
    {
        if str_eq(drive_folder_id(folders[i].id.as_str()).as_str(), id.as_str()) {
            return true;
        }
        i = i + 1;
    }
    false
}

/// The found syncs other than those of the Drive folder `folder_id`.
pub open spec fn spec_drop_cloud_items(items: Seq<(String, String)>, folder_id: Seq<char>) -> Seq<
    (String, String),
>
    decreases items.len(),
{
    if items.len() == 0 {
        Seq::empty()
    } else {
        let p = spec_drop_cloud_items(items.drop_last(), folder_id);
        if spec_drive_folder_id(items.last().0@) == folder_id {
            p
        } else {
            p.push(items.last())
        }
    }
}

/// After a sync was deleted from Drive, it leaves the found list.
pub fn drop_cloud_items(items: &Vec<(String, String)>, folder_id: &str) -> (r: Vec<(String, String)>)
    ensures
        r@ == spec_drop_cloud_items(items@, folder_id@),
{
    let mut r: Vec<(String, String)> = Vec::new();
    let mut i: usize = 0;
    assert(items@.take(0) =~= Seq::<(String, String)>::empty());
    while i < items.len()
        invariant
            i <= items@.len(),
            r@ == spec_drop_cloud_items(items@.take(i as int), folder_id@),
        decreases items@.len() - i,
    {
        assert(items@.take(i + 1).drop_last() =~= items@.take(i as int));
        if !str_eq(drive_folder_id(items[i].0.as_str()).as_str(), folder_id) {
            r.push((items[i].0.clone(), items[i].1.clone()));
        }
        i = i + 1;
    }
    assert(items@.take(items@.len() as int) =~= items@);
    r
}

/// Is there a Drive folder to delete? Not for an empty id, nor for a sync
/// still being created.
pub fn deletable_drive_folder(folder_id: &str) -> (r: bool)
    ensures
        r == (folder_id@.len() > 0 && folder_id@ != "pending"@),
{
    !folder_id.is_empty() && !str_eq(folder_id, "pending")
}

/// A sync code typed by the user: trimmed, and at least 8 bytes long.
pub fn typed_sync_code(text: &str) -> (r: Option<String>)
    ensures
        match r {
            Some(c) => c@ == trim(text@) && encode_utf8(trim(text@)).len() >= 8,
            None => encode_utf8(trim(text@)).len() < 8,
        },
{
    let t = string_of(trim_chars(chars_of(text).as_slice()).as_slice());
    let n = t.as_str().as_bytes().len();
    if n < 8 {
        None
    } else {
        Some(t)
    }
}

/// Where a sync keeps its files on Drive: the folder named in its code, or,
/// for an old code without one, the folder `ConnectSync_` + its first eight
/// bytes (found or created).
pub enum SyncTarget {
    Folder { folder_id: String },
    Legacy { folder_name: String },
}

pub open spec fn spec_code_parts(c: Seq<char>) -> Option<Seq<char>> {
    if starts_with(c, cs_prefix()) {
        match rfind_char(c.skip(3), '-') {
            Some(p) => Some(c.skip(3).take(p)),
            None => None,
        }
    } else {
        None
    }
}

/// The legacy name is cut after the code's first eight bytes, so for an old
/// code the cut must fall between characters.
pub fn sync_target(code: &str) -> (r: SyncTarget)
    requires
        spec_code_parts(code@) is None ==> is_char_boundary(
            code.spec_bytes(),
            folder_name_bytes(code.spec_bytes()),
        ),
    ensures
        match spec_code_parts(code@) {
            Some(f) => r matches SyncTarget::Folder { folder_id } && folder_id@ == f,
            None => r matches SyncTarget::Legacy { folder_name } && folder_name@
                == folder_name_prefix() + decode_utf8(
                code.spec_bytes().subrange(0, folder_name_bytes(code.spec_bytes())),
            ),
        },
{
    let c = chars_of(code);
    let pre = chars_of("cs-");
    proof {
        reveal_strlit("cs-");
        assert(pre@ =~= cs_prefix());
    }
    if chars_starts_with(c.as_slice(), pre.as_slice()) {
        let rest = slice_chars(c.as_slice(), 3, c.len());
        assert(rest@ =~= c@.skip(3));
        match rfind_chars(rest.as_slice(), '-') {
            Some(p) => {
                proof {
                    crate::text::lemma_rfind_char(rest@, '-');
                }
                let f = slice_chars(rest.as_slice(), 0, p);
                assert(f@ =~= rest@.take(p as int));
                return SyncTarget::Folder { folder_id: string_of(f.as_slice()) };
            },
            None => {},
        }
    }
    SyncTarget::Legacy { folder_name: drive_folder_name(code) }
}

/// Does a failure to read the salt file mean the Drive folder is gone? Drive
/// answers 404 / "not found" then.
pub open spec fn spec_means_missing_folder(err: Seq<char>) -> bool {
    occurs_in(err, "404"@) || occurs_in(err, "not found"@) || occurs_in(err, "notFound"@)
}

pub fn means_missing_folder(err: &str) -> (r: bool)
    ensures
        r == spec_means_missing_folder(err@),
{
    let c = chars_of(err);
    contains_text(c.as_slice(), chars_of("404").as_slice()) || contains_text(
        c.as_slice(),
        chars_of("not found").as_slice(),
    ) || contains_text(c.as_slice(), chars_of("notFound").as_slice())
}

impl FolderState {
    /// A new status line: the error is cleared.
    pub fn set_status(&mut self, msg: &str, syncing: bool)
        ensures
            final(self).status@ == msg@,
            final(self).is_syncing == syncing,
            final(self).error@.len() == 0,
    {
        self.status = owned(msg);
        self.is_syncing = syncing;
        self.error = String::new();
    }

    /// An error: shown in the row, and the sync counts as stopped.
    pub fn set_error(&mut self, err: &str)
        ensures
            final(self).error@ == err@,
            !final(self).is_syncing,
            final(self).status == old(self).status,
    {
        self.error = owned(err);
        self.is_syncing = false;
    }
}

/// The error a push round leaves in the folder's row: the first failed
/// file's, or none.
pub fn push_error(report: &SyncReport) -> (r: String)
    ensures
        report.failed_files@.len() == 0 ==> r@.len() == 0,
        report.failed_files@.len() > 0 ==> r@ == report.failed_files@[0].1@,
{
    if report.failed_files.len() == 0 {
        String::new()
    } else {
        report.failed_files[0].1.clone()
    }
}

/// The progress bar is shown only when the phase has a byte total.
pub fn progress_bar_visible(s: &Snapshot) -> (r: bool)
    ensures
        r == (s.total_bytes > 0),
{
    s.total_bytes > 0
}

/// The "waiting for the network" warning: a retry is running and the user
/// wants network popups.
pub fn network_warning(s: &Snapshot, popups_enabled: bool) -> (r: bool)
    ensures
        r == (s.net_retry > 0 && popups_enabled),
{
    s.net_retry > 0 && popups_enabled
}

/// Where a folder's sync loop stands between two pieces of outside work.
#[derive(Debug, Clone, Copy, PartialEq, Eq)]
pub enum LoopStage {
    /// About to ask Drive whether the folder still exists.
    CheckFolder,
    /// Drive → local running.
    Pull,
    /// Local → Drive running, after a pull that restored `pulled` files.
    Push { pulled: usize },
    /// Waiting for the timer, the "sync now" button or a local change.
    Wait,
    /// The loop has ended.
    Stopped,
}

/// What the outside work of a stage ended with.
#[derive(Debug, Clone, Copy, PartialEq, Eq)]
pub enum LoopEvent {
    /// The existence check answered: `Some(exists)`, or `None` when the
    /// request itself failed.
    FolderChecked { exists: Option<bool> },
    /// The pull ended: `Some(restored files)`, or `None` when it failed.
    PullFinished { restored: Option<usize> },
    PushFinished,
    /// The wait ended; `by_watcher` when a local change woke it.
    Woken { by_watcher: bool },
    /// The user stopped the sync.
    StopRequested,
}

/// What the loop does next.
#[derive(Debug, Clone, Copy, PartialEq, Eq)]
pub enum LoopAction {
    CheckFolder,
    /// The Drive folder is gone: report it and end the loop.
    ReportMissing,
    StartPull,
    /// Start the push; `pull_failed` asks to show the pull's error first.
    StartPush { pulled: usize, pull_failed: bool },
    Wait,
    /// Let further local changes settle, drop their events, then check.
    SettleThenCheck,
    Finish,
}

/// Does `event` answer the outside work of `stage`? A stop request answers
/// any running stage.
pub open spec fn event_fits(stage: LoopStage, event: LoopEvent) -> bool {
    match event {
        LoopEvent::StopRequested => stage != LoopStage::Stopped,
        LoopEvent::FolderChecked { .. } => stage == LoopStage::CheckFolder,
        LoopEvent::PullFinished { .. } => stage == LoopStage::Pull,
        LoopEvent::PushFinished => stage is Push,
        LoopEvent::Woken { .. } => stage == LoopStage::Wait,
    }
}

/// One round is: check the folder, pull, push, wait; a missing folder or a
/// stop request ends the loop; a failed check does not (the pull runs), and
/// a failed pull counts as nothing pulled.
pub open spec fn spec_loop_step(stage: LoopStage, event: LoopEvent) -> (LoopStage, LoopAction) {
    match event {
        LoopEvent::StopRequested => (LoopStage::Stopped, LoopAction::Finish),
        LoopEvent::FolderChecked { exists } => if exists == Some(false) {
            (LoopStage::Stopped, LoopAction::ReportMissing)
        } else {
            (LoopStage::Pull, LoopAction::StartPull)
        },
        LoopEvent::PullFinished { restored } => match restored {
            Some(n) => (LoopStage::Push { pulled: n }, LoopAction::StartPush { pulled: n, pull_failed: false }),
            None => (LoopStage::Push { pulled: 0 }, LoopAction::StartPush { pulled: 0, pull_failed: true }),
        },
        LoopEvent::PushFinished => (LoopStage::Wait, LoopAction::Wait),
        LoopEvent::Woken { by_watcher } => (
            LoopStage::CheckFolder,
            if by_watcher {
                LoopAction::SettleThenCheck
            } else {
                LoopAction::CheckFolder
            },
        ),
    }
}

/// The next stage and action of a folder's sync loop.
pub fn loop_step(stage: LoopStage, event: LoopEvent) -> (r: (LoopStage, LoopAction))
    requires
        event_fits(stage, event),
    ensures
        r == spec_loop_step(stage, event),
{
    match event {
        LoopEvent::StopRequested => (LoopStage::Stopped, LoopAction::Finish),
        LoopEvent::FolderChecked { exists } => match exists {
            Some(false) => (LoopStage::Stopped, LoopAction::ReportMissing),
            _ => (LoopStage::Pull, LoopAction::StartPull),
        },
        LoopEvent::PullFinished { restored } => match restored {
            Some(n) => (LoopStage::Push { pulled: n }, LoopAction::StartPush { pulled: n, pull_failed: false }),
            None => (LoopStage::Push { pulled: 0 }, LoopAction::StartPush { pulled: 0, pull_failed: true }),
        },
        LoopEvent::PushFinished => (LoopStage::Wait, LoopAction::Wait),
        LoopEvent::Woken { by_watcher } => {
            if by_watcher {
                (LoopStage::CheckFolder, LoopAction::SettleThenCheck)
            } else {
                (LoopStage::CheckFolder, LoopAction::CheckFolder)
            }
        },
    }
}

/// A stop request ends the loop from any running stage, and only a stop
/// request or a missing Drive folder ever ends it.
pub proof fn law_loop_ends_only_on_stop_or_missing_folder(stage: LoopStage, event: LoopEvent)
    requires
        event_fits(stage, event),
    ensures
        event == LoopEvent::StopRequested ==> spec_loop_step(stage, event).0 == LoopStage::Stopped,
        spec_loop_step(stage, event).0 == LoopStage::Stopped <==> (event == LoopEvent::StopRequested
            || event == (LoopEvent::FolderChecked { exists: Some(false) })),
{
}

/// Without a stop or a missing folder, every stage leads to the next one of
/// the round, and the round comes back to the folder check: a pull always
/// comes before a push, and a push before the next wait.
pub proof fn law_round_goes_check_pull_push_wait(stage: LoopStage, event: LoopEvent)
    requires
        event_fits(stage, event),
        event != LoopEvent::StopRequested,
        event != (LoopEvent::FolderChecked { exists: Some(false) }),
    ensures
        stage == LoopStage::CheckFolder ==> spec_loop_step(stage, event).0 == LoopStage::Pull,
        stage == LoopStage::Pull ==> spec_loop_step(stage, event).0 is Push,
        stage is Push ==> spec_loop_step(stage, event).0 == LoopStage::Wait,
        stage == LoopStage::Wait ==> spec_loop_step(stage, event).0 == LoopStage::CheckFolder,
{
}

// ---------------------------------------------------------------------------
// Start at login
// ---------------------------------------------------------------------------

/// How many times a program started at login asks for a Drive token before
/// it starts a folder's loop anyway.
pub const AUTOSTART_TOKEN_TRIES: u32 = 10;

/// The pause after a failed token try, in seconds.
pub const AUTOSTART_RETRY_SECS: u64 = 5;

/// What a program started at login does after a token try.
#[derive(Debug, Clone, Copy, PartialEq, Eq)]
pub enum AutostartAction {
    /// Start the folder's sync loop now.
    StartLoop,
    /// Pause `secs` seconds, then try again.
    RetryAfter { secs: u64 },
    /// Pause `secs` seconds, then start the loop without waiting longer.
    StartAfter { secs: u64 },
}

/// After a token try, with `failed_before` failed tries before it: a token
/// starts the loop; a failure pauses, then tries again until the tries are
/// used up, and after the last one the loop starts anyway.
pub open spec fn spec_autostart_step(failed_before: u32, token_ok: bool) -> AutostartAction {
    if token_ok {
        AutostartAction::StartLoop
    } else if failed_before + 1 < AUTOSTART_TOKEN_TRIES {
        AutostartAction::RetryAfter { secs: AUTOSTART_RETRY_SECS }
    } else {
        AutostartAction::StartAfter { secs: AUTOSTART_RETRY_SECS }
    }
}

pub fn autostart_step(failed_before: u32, token_ok: bool) -> (r: AutostartAction)
    requires
        failed_before < AUTOSTART_TOKEN_TRIES,
    ensures
        r == spec_autostart_step(failed_before, token_ok),
{
    if token_ok {
        AutostartAction::StartLoop
    } else if failed_before + 1 < AUTOSTART_TOKEN_TRIES {
        AutostartAction::RetryAfter { secs: AUTOSTART_RETRY_SECS }
    } else {
        AutostartAction::StartAfter { secs: AUTOSTART_RETRY_SECS }
    }
}

/// The number of token tries made and the seconds paused when the tries
/// answer as `oks` says, until the loop starts.
pub open spec fn autostart_wait(failed_before: u32, oks: Seq<bool>) -> (nat, nat)
    decreases AUTOSTART_TOKEN_TRIES - failed_before,
{
    if failed_before >= AUTOSTART_TOKEN_TRIES || oks.len() == 0 {
        (0, 0)
    } else {
        match spec_autostart_step(failed_before, oks[0]) {
            AutostartAction::StartLoop => (1, 0),
            AutostartAction::StartAfter { secs } => (1, secs as nat),
            AutostartAction::RetryAfter { secs } => {
                let rest = autostart_wait((failed_before + 1) as u32, oks.drop_first());
                (rest.0 + 1, rest.1 + secs as nat)
            },
        }
    }
}

/// Whatever the token tries answer, a program started at login starts each
/// folder's loop after at most ten tries and fifty seconds of pauses, and a
/// token on the first try starts it at once.
pub proof fn law_autostart_always_starts_the_loop(failed_before: u32, oks: Seq<bool>)
    requires
        failed_before <= AUTOSTART_TOKEN_TRIES,
    ensures
        autostart_wait(failed_before, oks).0 <= AUTOSTART_TOKEN_TRIES - failed_before,
        autostart_wait(failed_before, oks).1 <= AUTOSTART_RETRY_SECS * (AUTOSTART_TOKEN_TRIES
            - failed_before),
        oks.len() > 0 && oks[0] && failed_before < AUTOSTART_TOKEN_TRIES ==> autostart_wait(
            failed_before,
            oks,
        ) == (1nat, 0nat),
    decreases AUTOSTART_TOKEN_TRIES - failed_before,
{
    if failed_before < AUTOSTART_TOKEN_TRIES && oks.len() > 0 {
        if !oks[0] && failed_before + 1 < AUTOSTART_TOKEN_TRIES {
            law_autostart_always_starts_the_loop((failed_before + 1) as u32, oks.drop_first());
        }
    }
}

} // verus!
