//! The state of the update flow as the window shows it. It lives outside the
//! window: the app may sit in the tray while a download runs, and a window
//! opened later must show the right screen. Background tasks change it only
//! through the transitions below.

use vstd::prelude::*;
use crate::i18n::{fill_all, placeholder, replace_spec, Translations};
use crate::text::{push_str};
use crate::updater::{format_version, spec_format_version, Release, CURRENT_VERSION};

verus! {

#[derive(Debug)]
pub enum UpdatePhase {
    Idle,
    /// Asking GitHub.
    Checking,
    /// A newer version exists; waiting for the user.
    Available(Release),
    /// Downloading, verifying and installing; cannot be dismissed.
    Downloading(Release),
    /// The new binary is in place; waiting for a restart. Cannot be dismissed.
    Ready { exe: String, dev_build: bool },
    Failed(String),
    /// Already the newest version.
    Latest,
}

impl Default for UpdatePhase {
    fn default() -> (r: Self)
        ensures
            r is Idle,
    {
        UpdatePhase::Idle
    }
}

/// Bytes downloaded so far and the expected total.
pub struct DownloadProgress {
    pub downloaded: u64,
    pub total: u64,
}

impl Default for DownloadProgress {
    fn default() -> (r: Self)
        ensures
            r.downloaded == 0 && r.total == 0,
    {
        DownloadProgress { downloaded: 0, total: 0 }
    }
}

impl DownloadProgress {
    /// (downloaded, total) bytes.
    pub fn snapshot(&self) -> (r: (u64, u64))
        ensures
            r == (self.downloaded, self.total),
    {
        (self.downloaded, self.total)
    }

    /// A download starts: nothing received yet, `total` expected.
    pub fn start(&mut self, total: u64)
        ensures
            final(self).downloaded == 0,
            final(self).total == total,
    {
        self.downloaded = 0;
        self.total = total;
    }

    /// `n` more bytes arrived (the counter wraps as an atomic counter does).
    pub fn add(&mut self, n: u64)
        ensures
            final(self).downloaded == (old(self).downloaded + n) % 0x1_0000_0000_0000_0000,
            final(self).total == old(self).total,
    {
        self.downloaded = self.downloaded.wrapping_add(n);
    }
}

/// Can a new check start? Not while one runs, a download runs or a restart
/// is pending.
pub open spec fn spec_can_start_check(phase: UpdatePhase) -> bool {
    !(phase is Checking || phase is Downloading || phase is Ready)
}

pub fn can_start_check(phase: &UpdatePhase) -> (r: bool)
    ensures
        r == spec_can_start_check(*phase),
{
    match phase {
        UpdatePhase::Checking | UpdatePhase::Downloading(_) | UpdatePhase::Ready { .. } => false,
        _ => true,
    }
}

/// The release to download: only while an update is available.
pub fn download_target(phase: &UpdatePhase) -> (r: Option<Release>)
    ensures
        match *phase {
            UpdatePhase::Available(rel) => r == Some(rel),
            _ => r is None,
        },
{
    match phase {
        UpdatePhase::Available(r) => Some(r.clone()),
        _ => None,
    }
}

pub struct UpdateStore {
    pub phase: UpdatePhase,
    /// The phase changed; the tray timer shows it in the window and clears
    /// the flag.
    pub dirty: bool,
    pub progress: DownloadProgress,
}

impl Default for UpdateStore {
    fn default() -> (r: Self)
        ensures
            r.phase is Idle,
            !r.dirty,
            r.progress.downloaded == 0 && r.progress.total == 0,
    {
        UpdateStore { phase: UpdatePhase::Idle, dirty: false, progress: DownloadProgress::default() }
    }
}

impl UpdateStore {
    /// Moves to `phase` and marks the window as out of date.
    pub fn set(&mut self, phase: UpdatePhase)
        ensures
            final(self).phase == phase,
            final(self).dirty,
            final(self).progress == old(self).progress,
    {
        self.phase = phase;
        self.dirty = true;
    }

    /// "Check for updates": starts a check unless one is not allowed now.
    pub fn begin_check(&mut self) -> (r: bool)
        ensures
            r == spec_can_start_check(old(self).phase),
            r ==> final(self).phase is Checking && final(self).dirty,
            !r ==> final(self).phase == old(self).phase && final(self).dirty == old(self).dirty,
            final(self).progress == old(self).progress,
    {
        if !can_start_check(&self.phase) {
            return false;
        }
        self.set(UpdatePhase::Checking);
        true
    }

    /// The answer of a check arrives. It is dropped if the phase moved on
    /// meanwhile (another check, or a download).
    pub fn finish_check(&mut self, outcome: UpdatePhase)
        ensures
            old(self).phase is Checking ==> final(self).phase == outcome && final(self).dirty,
            !(old(self).phase is Checking) ==> final(self).phase == old(self).phase
                && final(self).dirty == old(self).dirty,
            final(self).progress == old(self).progress,
    {
        if let UpdatePhase::Checking = self.phase {
            self.set(outcome);
        }
    }

    /// "Update": starts downloading the available release, with fresh
    /// counters; `None` (and no change) when no update is available.
    pub fn begin_download(&mut self) -> (r: Option<Release>)
        ensures
            match old(self).phase {
                UpdatePhase::Available(rel) => {
                    &&& r == Some(rel)
                    &&& final(self).phase == UpdatePhase::Downloading(rel)
                    &&& final(self).dirty
                    &&& final(self).progress.downloaded == 0
                    &&& final(self).progress.total == 0
                },
                _ => r is None && final(self).phase == old(self).phase && final(self).dirty == old(
                    self,
                ).dirty && final(self).progress == old(self).progress,
            },
    {
        match download_target(&self.phase) {
            Some(release) => {
                self.progress = DownloadProgress::default();
                let again = release.clone();
                self.set(UpdatePhase::Downloading(again));
                Some(release)
            },
            None => None,
        }
    }

    /// The binary to start for a restart: only when one is ready.
    pub fn ready_exe(&self) -> (r: Option<String>)
        ensures
            match self.phase {
                UpdatePhase::Ready { exe, .. } => r == Some(exe),
                _ => r is None,
            },
    {
        match &self.phase {
            UpdatePhase::Ready { exe, .. } => Some(exe.clone()),
            _ => None,
        }
    }

    /// Should the tray timer refresh the window now: the phase changed, or a
    /// download is running (its bar moves). The flag is cleared.
    pub fn take_refresh(&mut self) -> (r: bool)
        ensures
            r == (old(self).dirty || old(self).phase is Downloading),
            r ==> !final(self).dirty,
            !r ==> final(self).dirty == old(self).dirty,
            final(self).phase == old(self).phase,
            final(self).progress == old(self).progress,
    {
        let downloading = match self.phase {
            UpdatePhase::Downloading(_) => true,
            _ => false,
        };
        if !self.dirty && !downloading {
            return false;
        }
        self.dirty = false;
        true
    }
}

/// Which screen of the update dialog is shown.
#[derive(Debug, Clone, Copy, PartialEq, Eq, Structural)]
pub enum UpdateState {
    Idle,
    Checking,
    Available,
    Downloading,
    Ready,
    Failed,
    Latest,
}

/// What the update dialog shows. The byte counts of a running download are
/// shown beside it; `percent` is the share already received.
pub struct UpdateView {
    pub state: UpdateState,
    pub title: String,
    pub body: String,
    pub percent: u32,
    /// During a download and while a restart is pending the dialog cannot
    /// be closed, and reopens with the window.
    pub force_open: bool,
}

/// The share of `total` received, in whole percent (halves rounded up),
/// never above 100; 0 while the total is unknown.
pub open spec fn spec_percent(downloaded: u64, total: u64) -> int {
    if total == 0 {
        0
    } else if downloaded >= total {
        100
    } else {
        (downloaded * 200 + total) / (total * 2)
    }
}

/// The body of the "update available" screen: the new version as `{v}` and
/// this build's as `{cur}`.
pub open spec fn available_body(tr: Translations, v: (u64, u64, u64)) -> Seq<char> {
    replace_spec(
        replace_spec(tr.text("update_available_body"@), placeholder("v"@), spec_format_version(v)),
        placeholder("cur"@),
        CURRENT_VERSION@,
    )
}

/// The body of the "ready" screen, with the development-build note appended
/// after a blank line for a binary that was not replaced.
pub open spec fn ready_body(tr: Translations, dev_build: bool) -> Seq<char> {
    if dev_build {
        tr.text("update_ready_body"@) + "\n\n"@ + tr.text("update_dev_note"@)
    } else {
        tr.text("update_ready_body"@)
    }
}

pub open spec fn spec_update_view(tr: Translations, phase: UpdatePhase, downloaded: u64, total: u64) -> (
    UpdateState,
    Seq<char>,
    Seq<char>,
    int,
    bool,
) {
    match phase {
        UpdatePhase::Idle => (UpdateState::Idle, Seq::empty(), Seq::empty(), 0, false),
        UpdatePhase::Checking => (UpdateState::Checking, tr.text("update_checking"@), Seq::empty(), 0, false),
        UpdatePhase::Available(r) => (
            UpdateState::Available,
            tr.text("update_available_title"@),
            available_body(tr, r.version),
            0,
            false,
        ),
        UpdatePhase::Downloading(_) => (
            UpdateState::Downloading,
            tr.text("update_downloading_title"@),
            Seq::empty(),
            spec_percent(downloaded, total),
            true,
        ),
        UpdatePhase::Ready { dev_build, .. } => (
            UpdateState::Ready,
            tr.text("update_ready_title"@),
            ready_body(tr, dev_build),
            0,
            true,
        ),
        UpdatePhase::Failed(e) => (UpdateState::Failed, tr.text("update_failed_title"@), e@, 0, false),
        UpdatePhase::Latest => (
            UpdateState::Latest,
            tr.text("update_latest_title"@),
            replace_spec(tr.text("update_latest_body"@), placeholder("cur"@), CURRENT_VERSION@),
            0,
            false,
        ),
    }
}

fn percent_of(downloaded: u64, total: u64) -> (r: u32)
    ensures
        r == spec_percent(downloaded, total),
{
    if total == 0 {
        0
    } else if downloaded >= total {
        100
    } else {
        let d = downloaded as u128;
        let t = total as u128;
        assert(d * 200 + t < t * 2 * 101) by (nonlinear_arith)
            requires
                d < t,
        ;
        let p = (d * 200 + t) / (t * 2);
        assert(p <= 100) by (nonlinear_arith)
            requires
                d < t,
                t > 0,
                p == (d * 200 + t) / (t * 2),
        ;
        p as u32
    }
}

/// The update dialog for a phase, in the chosen language. `downloaded` and
/// `total` count the bytes of a running download.
pub fn update_view(tr: &Translations, phase: &UpdatePhase, downloaded: u64, total: u64) -> (r: UpdateView)
    requires
        tr.wf(),
    ensures
        ({
            let v = spec_update_view(*tr, *phase, downloaded, total);
            &&& r.state == v.0
            &&& r.title@ == v.1
            &&& r.body@ == v.2
            &&& r.percent == v.3
            &&& r.force_open == v.4
        }),
{
    match phase {
        UpdatePhase::Idle => UpdateView {
            state: UpdateState::Idle,
            title: String::new(),
            body: String::new(),
            percent: 0,
            force_open: false,
        },
        UpdatePhase::Checking => UpdateView {
            state: UpdateState::Checking,
            title: tr.t("update_checking"),
            body: String::new(),
            percent: 0,
            force_open: false,
        },
        UpdatePhase::Available(rel) => {
            let v = format_version(rel.version);
            let vs = v.as_str();
            let args = [("v", vs), ("cur", CURRENT_VERSION)];
            let body = tr.tf("update_available_body", args.as_slice());
            proof {
                reveal_with_fuel(fill_all, 3);
                assert(args@ =~= seq![("v", vs), ("cur", CURRENT_VERSION)]);
            }
            UpdateView {
                state: UpdateState::Available,
                title: tr.t("update_available_title"),
                body,
                percent: 0,
                force_open: false,
            }
        },
        UpdatePhase::Downloading(_) => UpdateView {
            state: UpdateState::Downloading,
            title: tr.t("update_downloading_title"),
            body: String::new(),
            percent: percent_of(downloaded, total),
            force_open: true,
        },
        UpdatePhase::Ready { dev_build, .. } => {
            let mut body = tr.t("update_ready_body");
            if *dev_build {
                push_str(&mut body, "\n\n");
                let note = tr.t("update_dev_note");
                push_str(&mut body, note.as_str());
            }
            UpdateView {
                state: UpdateState::Ready,
                title: tr.t("update_ready_title"),
                body,
                percent: 0,
                force_open: true,
            }
        },
        UpdatePhase::Failed(e) => UpdateView {
            state: UpdateState::Failed,
            title: tr.t("update_failed_title"),
            body: e.clone(),
            percent: 0,
            force_open: false,
        },
        UpdatePhase::Latest => {
            let args = [("cur", CURRENT_VERSION)];
            let body = tr.tf("update_latest_body", args.as_slice());
            proof {
                reveal_with_fuel(fill_all, 2);
                assert(args@ =~= seq![("cur", CURRENT_VERSION)]);
            }
            UpdateView {
                state: UpdateState::Latest,
                title: tr.t("update_latest_title"),
                body,
                percent: 0,
                force_open: false,
            }
        },
    }
}

} // verus!
