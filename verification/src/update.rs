//! Whether a newer release is out.

use crate::text::text_after_last;
use vstd::prelude::*;

verus! {

/// How often to ask for the latest release.
pub const ONE_DAY_IN_SECONDS: u64 = 86_400;

/// The version of the latest release: what stands behind the last slash of its address.
pub fn latest_release_version(url: &str) -> (version: String)
    ensures
        version@ == crate::text::after_last(url@, '/'),
{
    text_after_last(url, '/')
}

/// Whether the latest release is newer than the running one, by the numbers of their versions.
pub fn is_newer(latest: i64, running: i64) -> (newer: bool)
    ensures
        newer == (latest > running),
{
    latest > running
}

/// The version is the end of the address, holds no slash, and stands behind one unless it is all of
/// the address. A release is newer exactly where its number is greater.
pub proof fn law_latest_release(url: &str, version: String, latest: i64, running: i64, newer: bool)
    requires
        call_ensures(latest_release_version, (url,), version),
        call_ensures(is_newer, (latest, running), newer),
    ensures
        !version@.contains('/'),
        version@.len() <= url@.len(),
        url@.skip(url@.len() - version@.len()) == version@,
        version@.len() < url@.len() ==> url@[url@.len() - version@.len() - 1] == '/',
        newer <==> running < latest,
{
    crate::text::law_after_last(url@, '/');
}

} // verus!
