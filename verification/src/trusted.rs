//! The trusted boundary around the outside crates: URL resolution (`url`),
//! the system clock (`chrono`), and shuffling (`rand`). Each wrapper's
//! contract is believed, not proved; everything above it is verified.

use vstd::prelude::*;
use rand::prelude::SliceRandom;
use crate::frontier::url_views;

verus! {

/// The serialized result of resolving the string `rel` against the base URL
/// string `base`, when both steps succeed. WHATWG URL parsing and joining
/// depend on the two strings alone.
pub uninterp spec fn join_url(base: Seq<char>, rel: Seq<char>) -> Option<Seq<char>>;

/// The host component of the URL string `url`, when it parses and has one.
pub uninterp spec fn host_of_url(url: Seq<char>) -> Option<Seq<char>>;

/// Relies on url::Url::parse and url::Url::join: parsing `base` as an
/// absolute URL and joining `rel` against it is a function of the two
/// strings alone; the result is serialized by url::Url::as_str.
#[verifier::external_body]
pub(crate) fn resolve_absolute(base: &String, rel: &String) -> (r: Option<String>)
    ensures
        match r {
            Some(u) => join_url(base@, rel@) == Some(u@),
            None => join_url(base@, rel@) is None,
        },
{
    match url::Url::parse(base) {
        Ok(b) => match b.join(rel) {
            Ok(u) => Some(u.as_str().to_owned()),
            Err(_) => None,
        },
        Err(_) => None,
    }
}

/// Relies on url::Url::parse and url::Url::host_str: the host component of a
/// URL string is a function of the string alone; `None` when the string does
/// not parse or the URL has no host.
#[verifier::external_body]
pub(crate) fn url_host(url: &String) -> (r: Option<String>)
    ensures
        match r {
            Some(h) => host_of_url(url@) == Some(h@),
            None => host_of_url(url@) is None,
        },
{
    match url::Url::parse(url) {
        Ok(u) => u.host_str().map(|h| h.to_owned()),
        Err(_) => None,
    }
}

/// Relies on chrono::Utc::now and chrono::DateTime::timestamp: the number of
/// non-leap seconds since the Unix epoch by the system clock. Nothing is
/// promised of the value. chrono aborts on a system clock that reads before
/// the epoch, so this call does not return there.
#[verifier::external_body]
pub(crate) fn now_timestamp() -> i64 {
    chrono::Utc::now().timestamp()
}

/// Relies on rand::seq::SliceRandom::shuffle with rand::thread_rng: the
/// elements are permuted in place, so every outcome holds exactly the same
/// entries with the same multiplicities.
#[verifier::external_body]
pub(crate) fn shuffle_urls(urls: &mut Vec<String>)
    ensures
        url_views(final(urls)@).to_multiset() == url_views(old(urls)@).to_multiset(),
{
    urls.shuffle(&mut rand::thread_rng());
}

} // verus!
