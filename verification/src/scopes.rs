//! Google Drive authorisation profiles (OAuth scopes). Both profiles also ask
//! for `drive.appdata`, where the registry of sync keys lives.

use vstd::prelude::*;

verus! {

pub const SCOPE_DRIVE_FILE: &'static str = "https://www.googleapis.com/auth/drive.file";

pub const SCOPE_DRIVE_FULL: &'static str = "https://www.googleapis.com/auth/drive";

pub const SCOPE_DRIVE_APPDATA: &'static str = "https://www.googleapis.com/auth/drive.appdata";

/// `AppOnly` (`drive.file`) sees only what the application created; `Full`
/// (`drive`) sees the whole Drive.
#[derive(Debug, Clone, Copy, PartialEq, Eq, Structural)]
pub enum DriveAccess {
    AppOnly,
    Full,
}

impl Default for DriveAccess {
    fn default() -> (r: Self)
        ensures
            r == DriveAccess::AppOnly,
    {
        DriveAccess::AppOnly
    }
}

/// The scopes requested for a profile.
pub open spec fn spec_scopes(a: DriveAccess) -> Seq<&'static str> {
    match a {
        DriveAccess::AppOnly => seq![SCOPE_DRIVE_FILE, SCOPE_DRIVE_APPDATA],
        DriveAccess::Full => seq![SCOPE_DRIVE_FULL, SCOPE_DRIVE_APPDATA],
    }
}

impl DriveAccess {
    pub fn from_full_flag(full: bool) -> (r: Self)
        ensures
            r == (if full {
                DriveAccess::Full
            } else {
                DriveAccess::AppOnly
            }),
    {
        if full {
            DriveAccess::Full
        } else {
            DriveAccess::AppOnly
        }
    }

    pub fn is_full(self) -> (r: bool)
        ensures
            r == (self == DriveAccess::Full),
    {
        self == DriveAccess::Full
    }

    /// Scopes to request from Google.
    pub fn scopes(self) -> (r: Vec<&'static str>)
        ensures
            r@ == spec_scopes(self),
    {
        let mut v: Vec<&'static str> = Vec::new();
        match self {
            DriveAccess::AppOnly => {
                v.push(SCOPE_DRIVE_FILE);
            },
            DriveAccess::Full => {
                v.push(SCOPE_DRIVE_FULL);
            },
        }
        v.push(SCOPE_DRIVE_APPDATA);
        assert(v@ =~= spec_scopes(self));
        v
    }

    /// Profile-specific suffix of the token cache: each profile keeps its own
    /// token, so a narrower token is never reused after the scope changes.
    pub fn cache_tag(self) -> (r: &'static str)
        ensures
            r == (match self {
                DriveAccess::AppOnly => "app",
                DriveAccess::Full => "full",
            }),
    {
        match self {
            DriveAccess::AppOnly => "app",
            DriveAccess::Full => "full",
        }
    }
}

/// Either profile requests the key-registry scope, and exactly one of the two
/// Drive scopes: the full profile never asks for per-file access and the
/// app-only profile never asks for the whole Drive.
pub proof fn law_scopes_keep_registry_and_one_drive_scope(a: DriveAccess)
    ensures
        spec_scopes(a).contains(SCOPE_DRIVE_APPDATA),
        a == DriveAccess::AppOnly ==> spec_scopes(a).contains(SCOPE_DRIVE_FILE) && !spec_scopes(
            a,
        ).contains(SCOPE_DRIVE_FULL),
        a == DriveAccess::Full ==> spec_scopes(a).contains(SCOPE_DRIVE_FULL) && !spec_scopes(
            a,
        ).contains(SCOPE_DRIVE_FILE),
{
    reveal_strlit("https://www.googleapis.com/auth/drive.file");
    reveal_strlit("https://www.googleapis.com/auth/drive");
    reveal_strlit("https://www.googleapis.com/auth/drive.appdata");
    let s = spec_scopes(a);
    assert(s[1] == SCOPE_DRIVE_APPDATA);
    if a == DriveAccess::AppOnly {
        assert(s[0] == SCOPE_DRIVE_FILE);
        assert(SCOPE_DRIVE_FILE@.len() != SCOPE_DRIVE_FULL@.len());
        assert(SCOPE_DRIVE_APPDATA@.len() != SCOPE_DRIVE_FULL@.len());
    } else {
        assert(s[0] == SCOPE_DRIVE_FULL);
        assert(SCOPE_DRIVE_FILE@.len() != SCOPE_DRIVE_FULL@.len());
        assert(SCOPE_DRIVE_APPDATA@.len() != SCOPE_DRIVE_FILE@.len());
    }
}

} // verus!
