//! Where sign-in tokens are kept: one key-ring entry per access profile.

use vstd::prelude::*;
use crate::scopes::DriveAccess;

verus! {

/// The entry older versions kept the single token in.
pub const OLD_TOKEN_ENTRY: &'static str = "google_token";

/// The key-ring entry of an access profile. Each profile has its own, so a
/// narrow token is never reused after switching to full access; the
/// app-only entry kept its old name and its users stay signed in.
pub fn token_entry(access: DriveAccess) -> (r: &'static str)
    ensures
        access == DriveAccess::AppOnly ==> r@ == "google_token_v2"@,
        access == DriveAccess::Full ==> r@ == "google_token_v3_full"@,
{
    match access {
        DriveAccess::AppOnly => "google_token_v2",
        DriveAccess::Full => "google_token_v3_full",
    }
}

/// The two profiles never share a token entry.
pub proof fn law_profiles_have_distinct_token_entries(a: Seq<char>, f: Seq<char>)
    requires
        a == "google_token_v2"@,
        f == "google_token_v3_full"@,
    ensures
        a != f,
{
    reveal_strlit("google_token_v2");
    reveal_strlit("google_token_v3_full");
    assert(a.len() != f.len());
}

} // verus!
