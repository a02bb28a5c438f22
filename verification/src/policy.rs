//! The revisit and purge policies: which URLs are worth (re)fetching and
//! which graph entries are degenerate and must be evicted.

use vstd::prelude::*;
use vstd::string::StrSliceExecFns;
use crate::graph::GraphModel;
use crate::trusted::host_of_url;

verus! {

/// The revisit window in seconds: a URL visited more recently than this is
/// not re-queued.
pub const REVISIT_WINDOW_SECONDS: u64 = 604800;

/// The characters with the Unicode `White_Space` property, the set that
/// `str::trim` removes; a blank URL consists only of these.
pub open spec fn is_space(c: char) -> bool {
    let u = c as u32;
    (9 <= u <= 13) || u == 32 || u == 0x85 || u == 0xa0 || u == 0x1680 || (0x2000 <= u <= 0x200a)
        || u == 0x2028 || u == 0x2029 || u == 0x202f || u == 0x205f || u == 0x3000
}

/// Empty or whitespace-only.
pub open spec fn is_blank(s: Seq<char>) -> bool {
    forall|i: int| 0 <= i < s.len() ==> is_space(s[i])
}

fn char_is_space(c: char) -> (r: bool)
    ensures
        r == is_space(c),
{
    let u = c as u32;
    (9 <= u && u <= 13) || u == 32 || u == 0x85 || u == 0xa0 || u == 0x1680 || (0x2000 <= u && u
        <= 0x200a) || u == 0x2028 || u == 0x2029 || u == 0x202f || u == 0x205f || u == 0x3000
}

pub(crate) fn url_is_blank(s: &String) -> (r: bool)
    ensures
        r == is_blank(s@),
{
    let n = s.as_str().unicode_len();
    let mut i: usize = 0;
    while i < n
        invariant
            n == s@.len(),
            i <= n,
            forall|j: int| 0 <= j < i ==> is_space(s@[j]),
        decreases n - i,
    {
        let c = s.as_str().get_char(i);
        if !char_is_space(c) {
            return false;
        }
        i = i + 1;
    }
    true
}

/// The domain entry at `key` records exactly one outgoing link, equal to
/// `url`: the degenerate shape the purge policy evicts.
pub open spec fn self_loop_only(g: GraphModel, key: Seq<char>, url: Seq<char>) -> bool {
    g.domains.contains_key(key) && g.domains[key].len() == 1 && g.domains[key][0] == url
}

/// The denylist: URLs whose host matches this are purged.
pub open spec fn denied_host() -> Seq<char> {
    "youtube.com"@
}

/// Purge policy. True when `url` is blank, when its own domain entry is a
/// pure self-loop, when its one-hop redirect target's domain entry records
/// `url` as its only link, or when its host is on the denylist.
pub open spec fn spec_should_be_purged(g: GraphModel, url: Seq<char>) -> bool {
    ||| is_blank(url)
    ||| self_loop_only(g, url, url)
    ||| (g.redirects.contains_key(url) && self_loop_only(g, g.redirects[url], url))
    ||| host_of_url(url) == Some(denied_host())
}

/// Was `url` visited within the revisit window before `now`? A timestamp in
/// the future also counts as recent, so a clock that moved backwards never
/// causes an immediate re-queue.
pub open spec fn spec_recently_visited(g: GraphModel, url: Seq<char>, now: u64) -> bool {
    g.visited.contains_key(url) && now < g.visited[url] + REVISIT_WINDOW_SECONDS
}

/// Revisit policy. True unless `url` itself, or its one-hop redirect target,
/// was visited within the revisit window. (A retry override for domains with
/// zero recorded links exists in the design but is switched off.)
pub open spec fn spec_should_be_queued(g: GraphModel, url: Seq<char>, now: u64) -> bool {
    &&& !spec_recently_visited(g, url, now)
    &&& !(g.redirects.contains_key(url) && spec_recently_visited(g, g.redirects[url], now))
}

/// The predicate by which the purge sweep keeps a frontier entry: still
/// purge-ineligible and still revisit-eligible under graph `g` at time `now`.
pub open spec fn frontier_keep(g: GraphModel, now: u64) -> spec_fn(Seq<char>) -> bool {
    |u: Seq<char>| !spec_should_be_purged(g, u) && spec_should_be_queued(g, u, now)
}

/// `g` differs from `g0` only by dropped domain entries: timestamps and
/// redirects are untouched, and every remaining domain entry is unchanged.
pub open spec fn domains_shrunk(g0: GraphModel, g: GraphModel) -> bool {
    &&& g.visited == g0.visited
    &&& g.redirects == g0.redirects
    &&& forall|k: Seq<char>|
        #[trigger] g.domains.contains_key(k) ==> g0.domains.contains_key(k) && g.domains[k]
            == g0.domains[k]
}

/// No domain entry records exactly one link, equal to its own key.
pub open spec fn no_self_loop_domains(g: GraphModel) -> bool {
    forall|k: Seq<char>|
        #[trigger] g.domains.contains_key(k) ==> !(g.domains[k].len() == 1 && g.domains[k][0] == k)
}

/// Every domain entry of `g0` that was not purge-eligible in `g0` is still
/// present in `g`.
pub open spec fn purge_preserves(g0: GraphModel, g: GraphModel) -> bool {
    forall|k: Seq<char>|
        #[trigger] g0.domains.contains_key(k) && !spec_should_be_purged(g0, k)
            ==> g.domains.contains_key(k)
}

/// No surviving domain entry is purge-eligible under the graph itself: the
/// shape a finished purge sweep leaves behind, and what makes a second
/// sweep a no-op.
pub open spec fn no_purge_eligible_domains(g: GraphModel) -> bool {
    forall|k: Seq<char>| #[trigger] g.domains.contains_key(k) ==> !spec_should_be_purged(g, k)
}

/// Dropping domain entries never makes a URL purge-eligible: eligibility
/// under the shrunken graph implies eligibility under the original.
pub proof fn lemma_purged_monotone(g0: GraphModel, g: GraphModel, url: Seq<char>)
    requires
        domains_shrunk(g0, g),
        spec_should_be_purged(g, url),
    ensures
        spec_should_be_purged(g0, url),
{
}

/// One eviction step of the purge sweep: removing an entry that is
/// purge-eligible under the current graph keeps the sweep's invariants.
pub proof fn lemma_purge_step(g0: GraphModel, g1: GraphModel, g2: GraphModel, k: Seq<char>)
    requires
        domains_shrunk(g0, g1),
        purge_preserves(g0, g1),
        spec_should_be_purged(g1, k),
        g2.domains == g1.domains.remove(k),
        g2.visited == g1.visited,
        g2.redirects == g1.redirects,
    ensures
        domains_shrunk(g0, g2),
        purge_preserves(g0, g2),
        forall|q: Seq<char>|
            #[trigger] spec_should_be_purged(g2, q) ==> spec_should_be_purged(g1, q),
{
    lemma_purged_monotone(g0, g1, k);
    assert forall|q: Seq<char>| g2.domains.contains_key(q) implies g1.domains.contains_key(q)
        && g2.domains[q] == g1.domains[q] by {}
    assert forall|q: Seq<char>| #[trigger]
        spec_should_be_purged(g2, q) implies spec_should_be_purged(g1, q) by {
        lemma_purged_monotone(g1, g2, q);
    }
    assert forall|q: Seq<char>| #[trigger] g2.domains.contains_key(q) implies g0.domains.contains_key(
        q,
    ) && g2.domains[q] == g0.domains[q] by {
        assert(g1.domains.contains_key(q));
        assert(g2.domains[q] == g1.domains[q]);
    }
    assert(forall|q: Seq<char>|
        g2.domains.contains_key(q) ==> g0.domains.contains_key(q) && g2.domains[q]
            == g0.domains[q]);
    assert forall|q: Seq<char>|
        g0.domains.contains_key(q) && !spec_should_be_purged(g0, q) implies g2.domains.contains_key(
        q,
    ) by {
        assert(g1.domains.contains_key(q));
        assert(q != k);
    }
}

/// A blank URL is purge-eligible in every graph.
pub proof fn lemma_blank_is_purged(g: GraphModel, url: Seq<char>)
    requires
        is_blank(url),
    ensures
        spec_should_be_purged(g, url),
{
}

/// A URL visited at time `t` is not queueable at any query time within the
/// revisit window, and is queueable once the window has passed, absent the
/// redirect disqualifier.
pub proof fn lemma_revisit_window(g: GraphModel, url: Seq<char>, t: u64, now: u64)
    requires
        g.visited.contains_key(url),
        g.visited[url] == t,
    ensures
        now < t + REVISIT_WINDOW_SECONDS ==> !spec_should_be_queued(g, url, now),
        now >= t + REVISIT_WINDOW_SECONDS && !(g.redirects.contains_key(url)
            && spec_recently_visited(g, g.redirects[url], now)) ==> spec_should_be_queued(
            g,
            url,
            now,
        ),
{
}

/// Purging is idempotent. `g1`/`q1` is a state one purge sweep has just
/// produced: no surviving domain entry is purge-eligible, and the frontier
/// is duplicate-free with every entry passing the keep predicate. `g2`/`q2`
/// is whatever a second sweep at the same query time leaves, as the purge
/// contract bounds it. Then the second sweep changed nothing.
pub proof fn lemma_purge_idempotent(
    g1: GraphModel,
    g2: GraphModel,
    q1: Seq<Seq<char>>,
    q2: Seq<Seq<char>>,
    now: u64,
)
    requires
        no_purge_eligible_domains(g1),
        q1.no_duplicates(),
        forall|i: int| 0 <= i < q1.len() ==> #[trigger] frontier_keep(g1, now)(q1[i]),
        domains_shrunk(g1, g2),
        purge_preserves(g1, g2),
        q2 == crate::frontier::dedup_first(q1).filter(frontier_keep(g2, now)),
    ensures
        g2 == g1,
        q2 == q1,
{
    assert forall|k: Seq<char>| #[trigger] g1.domains.contains_key(k) implies
        g2.domains.contains_key(k) && g2.domains[k] == g1.domains[k] by {
        assert(!spec_should_be_purged(g1, k));
        assert(g2.domains.contains_key(k));
    }
    assert forall|k: Seq<char>| #[trigger] g2.domains.contains_key(k) implies
        g1.domains.contains_key(k) && g2.domains[k] == g1.domains[k] by {}
    assert(g2.domains =~= g1.domains);
    assert(g2 == g1);
    crate::frontier::lemma_dedup_first_elems(q1);
    assert(crate::frontier::dedup_first(q1) == q1);
    crate::frontier::lemma_filter_all(q1, frontier_keep(g2, now));
}

/// A URL whose recorded redirect target was visited within the revisit
/// window is not queueable, even if the URL itself was never visited.
pub proof fn lemma_redirect_blocks_queueing(
    g: GraphModel,
    from: Seq<char>,
    to: Seq<char>,
    now: u64,
)
    requires
        g.redirects.contains_key(from),
        g.redirects[from] == to,
        spec_recently_visited(g, to, now),
    ensures
        !spec_should_be_queued(g, from, now),
{
}

} // verus!
