//! The desktop settings: synced folders, intervals, transfer threads,
//! language and theme, with the defaults an old or damaged settings file
//! falls back to.

use vstd::prelude::*;
use crate::text::{chars_of, owned, parse_u64, parse_u64_chars, str_eq, trim, trim_chars};
use crate::strmap::StrMap;
pub use crate::limits::{clamp_threads, DEFAULT_THREADS, MAX_THREADS, MIN_THREADS};

verus! {

pub struct SyncFolder {
    pub id: String,
    pub name: String,
    pub path: String,
    /// The sync code, kept in the key ring rather than in the file.
    pub code: String,
}

impl Clone for SyncFolder {
    fn clone(&self) -> (r: Self)
        ensures
            r == *self,
    {
        SyncFolder {
            id: self.id.clone(),
            name: self.name.clone(),
            path: self.path.clone(),
            code: self.code.clone(),
        }
    }
}

pub struct AppConfig {
    pub sync_interval_minutes: u32,
    pub auto_start_enabled: bool,
    pub start_in_tray: bool,
    pub concurrent_threads: u32,
    pub language: String,
    pub sync_folders: Vec<SyncFolder>,
    /// Sync as soon as a local change is seen (otherwise only on the timer).
    pub watch_local_changes: bool,
    /// Remove orphan chunks from Drive automatically.
    pub auto_gc: bool,
    /// Show a popup on errors (otherwise only in the folder's row).
    pub show_error_popups: bool,
    /// Show a separate popup when the connection drops.
    pub show_network_popups: bool,
    /// `THEME_DARK` (default) or `THEME_LIGHT`; anything else counts as dark.
    pub theme: String,
}

pub const THEME_DARK: &'static str = "dark";
pub const THEME_LIGHT: &'static str = "light";

/// Default of the periodic check interval, in minutes.
pub const DEFAULT_CHECK_INTERVAL_MINUTES: u32 = 5;

/// The theme name for the window's "dark theme" switch.
pub fn theme_name(dark: bool) -> (r: &'static str)
    ensures
        dark ==> r@ == THEME_DARK@,
        !dark ==> r@ == THEME_LIGHT@,
{
    if dark {
        THEME_DARK
    } else {
        THEME_LIGHT
    }
}

/// The default of the switches that are on unless turned off.
pub fn default_true() -> (r: bool)
    ensures
        r,
{
    true
}

impl Default for AppConfig {
    fn default() -> (r: Self)
        ensures
            r.sync_interval_minutes == DEFAULT_CHECK_INTERVAL_MINUTES,
            !r.auto_start_enabled,
            r.start_in_tray,
            r.concurrent_threads == DEFAULT_THREADS,
            r.language@ == "tr"@,
            r.sync_folders@.len() == 0,
            r.watch_local_changes && r.auto_gc && r.show_error_popups && r.show_network_popups,
            r.theme@ == THEME_DARK@,
    {
        AppConfig {
            sync_interval_minutes: DEFAULT_CHECK_INTERVAL_MINUTES,
            auto_start_enabled: false,
            start_in_tray: true,
            concurrent_threads: DEFAULT_THREADS,
            language: owned("tr"),
            sync_folders: Vec::new(),
            watch_local_changes: true,
            auto_gc: true,
            show_error_popups: true,
            show_network_popups: true,
            theme: owned(THEME_DARK),
        }
    }
}

impl AppConfig {
    /// Dark unless the theme says exactly `light`: a damaged or old value
    /// keeps the familiar dark look.
    pub fn is_dark_theme(&self) -> (r: bool)
        ensures
            r == (self.theme@ != THEME_LIGHT@),
    {
        !str_eq(self.theme.as_str(), THEME_LIGHT)
    }

    /// The periodic check interval in minutes; 0 (old or missing value) means
    /// the default.
    pub fn check_interval_minutes(&self) -> (r: u32)
        ensures
            self.sync_interval_minutes == 0 ==> r == DEFAULT_CHECK_INTERVAL_MINUTES,
            self.sync_interval_minutes != 0 ==> r == self.sync_interval_minutes,
    {
        if self.sync_interval_minutes == 0 {
            DEFAULT_CHECK_INTERVAL_MINUTES
        } else {
            self.sync_interval_minutes
        }
    }
}

/// A folder with its code taken from the key ring's id → code table, if the
/// table has its id.
pub open spec fn with_code(f: SyncFolder, codes: Map<Seq<char>, String>) -> SyncFolder {
    if codes.contains_key(f.id@) {
        SyncFolder { code: codes[f.id@], ..f }
    } else {
        f
    }
}

/// The id → code table of the folders, a later folder of an id replacing
/// an earlier one.
pub open spec fn spec_codes(folders: Seq<SyncFolder>) -> Map<Seq<char>, String>
    decreases folders.len(),
{
    if folders.len() == 0 {
        Map::empty()
    } else {
        spec_codes(folders.drop_last()).insert(folders.last().id@, folders.last().code)
    }
}

impl AppConfig {
    /// Gives each folder its sync code from the key ring's table; a folder
    /// whose id the table lacks keeps its code. Nothing else changes.
    pub fn attach_codes(&mut self, codes: &StrMap<String>)
        requires
            codes.wf(),
        ensures
            final(self).sync_folders@.len() == old(self).sync_folders@.len(),
            forall|i: int|
                0 <= i < old(self).sync_folders@.len() ==> #[trigger] final(self).sync_folders@[i]
                    == with_code(old(self).sync_folders@[i], codes@),
            final(self).sync_interval_minutes == old(self).sync_interval_minutes,
            final(self).concurrent_threads == old(self).concurrent_threads,
            final(self).language == old(self).language,
            final(self).theme == old(self).theme,
    {
        let mut i: usize = 0;
        let ghost start = self.sync_folders@;
        while i < self.sync_folders.len()
            invariant
                codes.wf(),
                self.sync_folders@.len() == start.len(),
                i <= start.len(),
                forall|j: int| 0 <= j < i ==> #[trigger] self.sync_folders@[j] == with_code(start[j], codes@),
                forall|j: int| i <= j < start.len() ==> #[trigger] self.sync_folders@[j] == start[j],
                self.sync_interval_minutes == old(self).sync_interval_minutes,
                self.concurrent_threads == old(self).concurrent_threads,
                self.language == old(self).language,
                self.theme == old(self).theme,
            decreases start.len() - i,
        {
            let found = match codes.get(self.sync_folders[i].id.as_str()) {
                Some(c) => Some(c.clone()),
                None => None,
            };
            match found {
                Some(code) => {
                    let f = &self.sync_folders[i];
                    let updated = SyncFolder {
                        id: f.id.clone(),
                        name: f.name.clone(),
                        path: f.path.clone(),
                        code,
                    };
                    self.sync_folders.set(i, updated);
                },
                None => {},
            }
            i = i + 1;
        }
    }

    /// The id → code table the key ring keeps for the folders.
    pub fn codes_table(&self) -> (r: StrMap<String>)
        ensures
            r.wf(),
            r@ == spec_codes(self.sync_folders@),
    {
        let mut r: StrMap<String> = StrMap::new();
        let mut i: usize = 0;
        assert(self.sync_folders@.take(0) =~= Seq::<SyncFolder>::empty());
        while i < self.sync_folders.len()
            invariant
                i <= self.sync_folders@.len(),
                r.wf(),
                r@ == spec_codes(self.sync_folders@.take(i as int)),
            decreases self.sync_folders@.len() - i,
        {
            assert(self.sync_folders@.take(i + 1).drop_last() =~= self.sync_folders@.take(i as int));
            let f = &self.sync_folders[i];
            r.insert(f.id.clone(), f.code.clone());
            i = i + 1;
        }
        assert(self.sync_folders@.take(self.sync_folders@.len() as int) =~= self.sync_folders@);
        r
    }
}

/// The codes written to the key ring come back to their folders: after the
/// table of a configuration is attached to it, each folder holds the code
/// of the last folder of its id (its own, where ids are distinct).
pub proof fn law_codes_come_back_to_their_folders(folders: Seq<SyncFolder>, i: int)
    requires
        0 <= i < folders.len(),
        forall|j: int| 0 <= j < folders.len() && j != i ==> folders[j].id@ != folders[i].id@,
    ensures
        with_code(folders[i], spec_codes(folders)) == folders[i],
    decreases folders.len(),
{
    lemma_codes_has(folders, i);
}

proof fn lemma_codes_has(folders: Seq<SyncFolder>, i: int)
    requires
        0 <= i < folders.len(),
        forall|j: int| 0 <= j < folders.len() && j != i ==> folders[j].id@ != folders[i].id@,
    ensures
        spec_codes(folders).contains_key(folders[i].id@),
        spec_codes(folders)[folders[i].id@] == folders[i].code,
    decreases folders.len(),
{
    let last = folders.len() - 1;
    if i < last {
        let p = folders.drop_last();
        assert forall|j: int| 0 <= j < p.len() && j != i implies p[j].id@ != p[i].id@ by {
            assert(p[j] == folders[j]);
        }
        lemma_codes_has(p, i);
        assert(folders[last].id@ != folders[i].id@);
    }
}

/// Turning the dark switch on or off and reading the theme back gives the
/// same switch position.
pub proof fn law_theme_name_round_trips(dark: bool, theme: Seq<char>)
    requires
        dark ==> theme == THEME_DARK@,
        !dark ==> theme == THEME_LIGHT@,
    ensures
        (theme != THEME_LIGHT@) == dark,
{
    reveal_strlit("dark");
    reveal_strlit("light");
    assert(THEME_DARK@ == "dark"@);
    assert(THEME_LIGHT@ == "light"@);
    assert(THEME_DARK@.len() != THEME_LIGHT@.len());
}

/// Position of the first folder whose id is `id`.
pub open spec fn first_with_id(folders: Seq<SyncFolder>, id: Seq<char>) -> Option<int>
    decreases folders.len(),
{
    if folders.len() == 0 {
        None
    } else if folders[0].id@ == id {
        Some(0)
    } else {
        match first_with_id(folders.drop_first(), id) {
            Some(i) => Some(i + 1),
            None => None,
        }
    }
}

proof fn lemma_first_with_id(folders: Seq<SyncFolder>, id: Seq<char>)
    ensures
        match first_with_id(folders, id) {
            Some(i) => 0 <= i < folders.len() && folders[i].id@ == id && forall|j: int|
                0 <= j < i ==> folders[j].id@ != id,
            None => forall|j: int| 0 <= j < folders.len() ==> folders[j].id@ != id,
        },
    decreases folders.len(),
{
    if folders.len() > 0 && folders[0].id@ != id {
        lemma_first_with_id(folders.drop_first(), id);
        assert forall|j: int| 1 <= j < folders.len() implies folders[j] == folders.drop_first()[j
            - 1] by {}
    }
}

/// The folders without those of this id.
pub open spec fn without_id(folders: Seq<SyncFolder>, id: Seq<char>) -> Seq<SyncFolder>
    decreases folders.len(),
{
    if folders.len() == 0 {
        Seq::empty()
    } else {
        let w = without_id(folders.drop_last(), id);
        if folders.last().id@ == id {
            w
        } else {
            w.push(folders.last())
        }
    }
}

/// What saving the "edit sync" form did.
pub struct SyncEdit {
    /// The sync was not configured before.
    pub is_new: bool,
    /// The folder's previous path (empty for a new sync).
    pub old_path: String,
    /// The sync code of the folder.
    pub code: String,
}

fn find_id(folders: &Vec<SyncFolder>, id: &str) -> (r: Option<usize>)
    ensures
        match r {
            Some(i) => first_with_id(folders@, id@) == Some(i as int) && i < folders@.len(),
            None => first_with_id(folders@, id@) is None,
        },
{
    proof {
        lemma_first_with_id(folders@, id@);
    }
    let mut i: usize = 0;
    while i < folders.len()
        invariant
            i <= folders@.len(),
            forall|j: int| 0 <= j < i ==> folders@[j].id@ != id@,
            match first_with_id(folders@, id@) {
                Some(k) => 0 <= k < folders@.len() && folders@[k].id@ == id@ && forall|j: int|
                    0 <= j < k ==> folders@[j].id@ != id@,
                None => forall|j: int| 0 <= j < folders@.len() ==> folders@[j].id@ != id@,
            },
        decreases folders@.len() - i,
    {
        if str_eq(folders[i].id.as_str(), id) {
            return Some(i);
        }
        i = i + 1;
    }
    None
}

impl AppConfig {
    /// Is a sync already kept in this folder?
    pub fn path_in_use(&self, path: &str) -> (r: bool)
        ensures
            r == exists|i: int|
                0 <= i < self.sync_folders@.len() && (#[trigger] self.sync_folders@[i]).path@ == path@,
    {
        let mut i: usize = 0;
        while i < self.sync_folders.len()
            invariant
                i <= self.sync_folders@.len(),
                forall|j: int| 0 <= j < i ==> (#[trigger] self.sync_folders@[j]).path@ != path@,
            decreases self.sync_folders@.len() - i,
        {
            if str_eq(self.sync_folders[i].path.as_str(), path) {
                return true;
            }
            i = i + 1;
        }
        false
    }

    /// The local path of the sync with this id.
    pub fn sync_path(&self, id: &str) -> (r: Option<String>)
        ensures
            match first_with_id(self.sync_folders@, id@) {
                Some(i) => r matches Some(p) && p@ == self.sync_folders@[i].path@,
                None => r is None,
            },
    {
        match find_id(&self.sync_folders, id) {
            Some(i) => Some(self.sync_folders[i].path.clone()),
            None => None,
        }
    }

    /// Saves the "edit sync" form: an existing sync gets the new name and
    /// path; an unknown one is added with its id as its code.
    pub fn apply_sync_edit(&mut self, id: &str, name: &str, path: &str) -> (r: SyncEdit)
        ensures
            match first_with_id(old(self).sync_folders@, id@) {
                Some(i) => {
                    let f = old(self).sync_folders@[i];
                    &&& !r.is_new
                    &&& r.old_path@ == f.path@
                    &&& r.code@ == f.code@
                    &&& final(self).sync_folders@.len() == old(self).sync_folders@.len()
                    &&& final(self).sync_folders@[i].id == f.id
                    &&& final(self).sync_folders@[i].name@ == name@
                    &&& final(self).sync_folders@[i].path@ == path@
                    &&& final(self).sync_folders@[i].code == f.code
                    &&& forall|j: int|
                        0 <= j < old(self).sync_folders@.len() && j != i ==> final(self).sync_folders@[j] == old(self).sync_folders@[j]
                },
                None => {
                    &&& r.is_new
                    &&& r.old_path@.len() == 0
                    &&& r.code@ == id@
                    &&& final(self).sync_folders@.len() == old(self).sync_folders@.len() + 1
                    &&& final(self).sync_folders@.take(old(self).sync_folders@.len() as int)
                        == old(self).sync_folders@
                    &&& final(self).sync_folders@.last().id@ == id@
                    &&& final(self).sync_folders@.last().name@ == name@
                    &&& final(self).sync_folders@.last().path@ == path@
                    &&& final(self).sync_folders@.last().code@ == id@
                },
            },
            final(self).sync_interval_minutes == old(self).sync_interval_minutes,
            final(self).concurrent_threads == old(self).concurrent_threads,
            final(self).theme == old(self).theme,
            final(self).language == old(self).language,
    {
        match find_id(&self.sync_folders, id) {
            Some(i) => {
                let f = &self.sync_folders[i];
                let edited = SyncFolder {
                    id: f.id.clone(),
                    name: owned(name),
                    path: owned(path),
                    code: f.code.clone(),
                };
                let r = SyncEdit { is_new: false, old_path: f.path.clone(), code: f.code.clone() };
                self.sync_folders.set(i, edited);
                r
            },
            None => {
                self.sync_folders.push(
                    SyncFolder { id: owned(id), name: owned(name), path: owned(path), code: owned(id) },
                );
                proof {
                    assert(self.sync_folders@.take(old(self).sync_folders@.len() as int)
                        =~= old(self).sync_folders@);
                }
                SyncEdit { is_new: true, old_path: String::new(), code: owned(id) }
            },
        }
    }

    /// Forgets the syncs of this id.
    pub fn remove_sync(&mut self, id: &str)
        ensures
            final(self).sync_folders@ == without_id(old(self).sync_folders@, id@),
            final(self).sync_interval_minutes == old(self).sync_interval_minutes,
            final(self).concurrent_threads == old(self).concurrent_threads,
            final(self).theme == old(self).theme,
    {
        let mut kept: Vec<SyncFolder> = Vec::new();
        let mut i: usize = 0;
        let ghost all = self.sync_folders@;
        assert(all.take(0) =~= Seq::<SyncFolder>::empty());
        while i < self.sync_folders.len()
            invariant
                all == self.sync_folders@,
                i <= all.len(),
                kept@ == without_id(all.take(i as int), id@),
            decreases all.len() - i,
        {
            assert(all.take(i + 1).drop_last() =~= all.take(i as int));
            if !str_eq(self.sync_folders[i].id.as_str(), id) {
                kept.push(self.sync_folders[i].clone());
            }
            i = i + 1;
        }
        assert(all.take(all.len() as int) =~= all);
        self.sync_folders = kept;
    }

    /// Moves a sync to a new code (its Drive folder was recreated): the
    /// first sync of id `old_code` takes `new_code` as id and code.
    pub fn replace_sync_code(&mut self, old_code: &str, new_code: &str)
        ensures
            match first_with_id(old(self).sync_folders@, old_code@) {
                Some(i) => {
                    &&& final(self).sync_folders@.len() == old(self).sync_folders@.len()
                    &&& final(self).sync_folders@[i].id@ == new_code@
                    &&& final(self).sync_folders@[i].code@ == new_code@
                    &&& final(self).sync_folders@[i].name == old(self).sync_folders@[i].name
                    &&& final(self).sync_folders@[i].path == old(self).sync_folders@[i].path
                    &&& forall|j: int|
                        0 <= j < old(self).sync_folders@.len() && j != i ==> final(self).sync_folders@[j] == old(self).sync_folders@[j]
                },
                None => final(self).sync_folders@ == old(self).sync_folders@,
            },
    {
        match find_id(&self.sync_folders, old_code) {
            Some(i) => {
                let f = &self.sync_folders[i];
                let moved = SyncFolder {
                    id: owned(new_code),
                    name: f.name.clone(),
                    path: f.path.clone(),
                    code: owned(new_code),
                };
                self.sync_folders.set(i, moved);
            },
            None => {},
        }
    }
}

/// A number typed into a settings field: surrounding white space ignored,
/// `str::parse::<u32>` otherwise.
pub open spec fn parse_u32_text(text: Seq<char>) -> Option<u32> {
    match parse_u64(trim(text)) {
        Some(n) => if n <= u32::MAX {
            Some(n as u32)
        } else {
            None
        },
        None => None,
    }
}

fn parse_u32_input(text: &str) -> (r: Option<u32>)
    ensures
        r == parse_u32_text(text@),
{
    let t = trim_chars(chars_of(text).as_slice());
    match parse_u64_chars(t.as_slice()) {
        Some(n) => if n <= 0xFFFF_FFFF {
            Some(n as u32)
        } else {
            None
        },
        None => None,
    }
}

/// Shortest and longest check interval the settings accept, in minutes.
pub const MIN_CHECK_INTERVAL_MINUTES: u32 = 1;
pub const MAX_CHECK_INTERVAL_MINUTES: u32 = 1440;

/// The check interval typed into the settings: a number of minutes pulled
/// into one minute .. one day; anything unreadable counts as 0 and so
/// becomes one minute.
pub fn check_interval_from_input(text: &str) -> (r: u32)
    ensures
        ({
            let n: int = match parse_u32_text(text@) {
                Some(n) => n as int,
                None => 0,
            };
            r == if n < MIN_CHECK_INTERVAL_MINUTES {
                MIN_CHECK_INTERVAL_MINUTES as int
            } else if n > MAX_CHECK_INTERVAL_MINUTES {
                MAX_CHECK_INTERVAL_MINUTES as int
            } else {
                n
            }
        }),
{
    let n = match parse_u32_input(text) {
        Some(n) => n,
        None => 0,
    };
    if n < MIN_CHECK_INTERVAL_MINUTES {
        MIN_CHECK_INTERVAL_MINUTES
    } else if n > MAX_CHECK_INTERVAL_MINUTES {
        MAX_CHECK_INTERVAL_MINUTES
    } else {
        n
    }
}

/// The transfer thread count typed into the settings: unreadable input
/// means the default; the value is clamped to the allowed range.
pub fn threads_from_input(text: &str) -> (r: u32)
    ensures
        r == crate::limits::clamped(
            match parse_u32_text(text@) {
                Some(n) => n as int,
                None => DEFAULT_THREADS as int,
            },
        ),
{
    let n = match parse_u32_input(text) {
        Some(n) => n,
        None => DEFAULT_THREADS,
    };
    clamp_threads(n)
}

} // verus!
