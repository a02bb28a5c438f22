//! The orchestrator: owns the frontier queue and the link graph, seeds the
//! frontier at startup from the graph, and exposes the dequeue / visit /
//! save operations that a fetch loop drives. Loading and persisting the
//! graph file is the surrounding program's job; every operation here only
//! mutates the in-memory state.

use vstd::prelude::*;
use crate::frontier::dedup_first;
use crate::frontier::no_dup_urls;
use crate::frontier::url_views;
use crate::frontier;
use crate::graph::DomainInfo;
use crate::graph::Graph;
use crate::graph::GraphModel;
use crate::graph::spec_resolve;
use crate::policy::REVISIT_WINDOW_SECONDS;
use crate::policy::denied_host;
use crate::policy::domains_shrunk;
use crate::policy::frontier_keep;
use crate::policy::lemma_purge_step;
use crate::policy::no_purge_eligible_domains;
use crate::policy::no_self_loop_domains;
use crate::policy::purge_preserves;
use crate::policy::spec_should_be_purged;
use crate::policy::spec_should_be_queued;
use crate::policy::url_is_blank;
use crate::strmap::alist_key_index;
use crate::trusted::host_of_url;
use crate::trusted::join_url;
use crate::trusted;

verus! {

/// The absolute URLs that `save` appends to the frontier, in link order:
/// for each discovered link that is not yet a known domain and is
/// revisit-eligible under graph `g` at time `now`, the result of resolving
/// it against `base`, when that resolution succeeds.
pub open spec fn save_pushes(
    g: GraphModel,
    base: Seq<char>,
    links: Seq<Seq<char>>,
    now: u64,
) -> Seq<Seq<char>>
    decreases links.len(),
{
    if links.len() == 0 {
        Seq::empty()
    } else {
        let rest = save_pushes(g, base, links.drop_last(), now);
        let l = links.last();
        if !g.domains.contains_key(l) && spec_should_be_queued(g, l, now) && join_url(base, l)
            is Some {
            rest.push(join_url(base, l)->Some_0)
        } else {
            rest
        }
    }
}

/// `u` is an absolute URL that startup seeding derives from graph `g` at
/// time `now`: some domain entry's recorded link which, after one-hop
/// redirect resolution, is purge-ineligible and revisit-eligible, resolved
/// against the owning domain's URL.
pub open spec fn is_seed_candidate(g: GraphModel, now: u64, u: Seq<char>) -> bool {
    exists|host: Seq<char>, i: int|
        #![trigger g.domains[host][i]]
        {
            &&& g.domains.contains_key(host)
            &&& 0 <= i < g.domains[host].len()
            &&& !spec_should_be_purged(g, spec_resolve(g, g.domains[host][i]))
            &&& spec_should_be_queued(g, spec_resolve(g, g.domains[host][i]), now)
            &&& join_url(host, spec_resolve(g, g.domains[host][i])) == Some(u)
        }
}

/// All the URLs that startup seeding derives from graph `g` at time `now`.
pub open spec fn seed_set(g: GraphModel, now: u64) -> Set<Seq<char>> {
    Set::new(|u: Seq<char>| is_seed_candidate(g, now, u))
}

/// `is_seed_candidate` restricted to the domain entries the seeding loop
/// has walked so far: those in `pairs` strictly before position `d`, and
/// the links of the entry at `d` strictly before position `l`.
pub open spec fn is_seed_candidate_upto(
    g: GraphModel,
    now: u64,
    pairs: Seq<(String, DomainInfo)>,
    d: int,
    l: int,
    u: Seq<char>,
) -> bool {
    exists|di: int, li: int|
        #![trigger pairs[di].1@[li]]
        {
            &&& 0 <= di < pairs.len()
            &&& 0 <= li < pairs[di].1@.len()
            &&& (di < d || (di == d && li < l))
            &&& !spec_should_be_purged(g, spec_resolve(g, pairs[di].1@[li]))
            &&& spec_should_be_queued(g, spec_resolve(g, pairs[di].1@[li]), now)
            &&& join_url(pairs[di].0@, spec_resolve(g, pairs[di].1@[li])) == Some(u)
        }
}

pub struct Manager {
    pub queue: Vec<String>,
    pub graph: Graph,
}

/// Seconds since the Unix epoch by the system clock; a clock before the
/// epoch is read as the epoch itself.
pub fn now_seconds() -> u64 {
    let t = trusted::now_timestamp();
    if t < 0 {
        0u64
    } else {
        t as u64
    }
}

impl Manager {
    pub open spec fn wf(self) -> bool {
        self.graph.wf()
    }

    /// Purge policy on the current graph; see `spec_should_be_purged`.
    pub fn should_be_purged(&self, url: &String) -> (r: bool)
        requires
            self.wf(),
        ensures
            r == spec_should_be_purged(self.graph@, url@),
    {
        if url_is_blank(url) {
            return true;
        }
        if let Some(info) = self.graph.domains.get(url) {
            if info.links.len() == 1 && info.links[0].url == *url {
                proof {
                    assert(self.graph@.domains[url@][0] == url@);
                }
                return true;
            }
        }
        if let Some(target) = self.graph.redirects.get(url) {
            if let Some(info) = self.graph.domains.get(target) {
                if info.links.len() == 1 && info.links[0].url == *url {
                    proof {
                        assert(self.graph@.domains[target@][0] == url@);
                    }
                    return true;
                }
            }
        }
        if let Some(host) = trusted::url_host(url) {
            let denied = "youtube.com".to_owned();
            if host == denied {
                proof {
                    assert(host_of_url(url@) == Some(denied_host()));
                }
                return true;
            }
        }
        false
    }

    /// Revisit policy on the current graph at query time `now`; see
    /// `spec_should_be_queued`.
    pub fn should_be_queued_at(&self, url: &String, now: u64) -> (r: bool)
        requires
            self.wf(),
        ensures
            r == spec_should_be_queued(self.graph@, url@, now),
    {
        if let Some(t) = self.graph.visited.get(url) {
            if now <= *t || now - *t < REVISIT_WINDOW_SECONDS {
                return false;
            }
        }
        if let Some(target) = self.graph.redirects.get(url) {
            if let Some(t) = self.graph.visited.get(target) {
                if now <= *t || now - *t < REVISIT_WINDOW_SECONDS {
                    return false;
                }
            }
        }
        true
    }

    /// Revisit policy at the current clock reading.
    pub fn should_be_queued(&self, url: &String) -> (r: bool)
        requires
            self.wf(),
        ensures
            exists|now: u64| r == spec_should_be_queued(self.graph@, url@, now),
    {
        let now = now_seconds();
        self.should_be_queued_at(url, now)
    }

    /// Removes and returns the most recently enqueued URL, or nothing when
    /// the frontier is empty.
    pub fn dequeue(&mut self) -> (r: Option<String>)
        ensures
            final(self).graph == old(self).graph,
            match r {
                Some(u) => old(self).queue@.len() > 0 && u == old(self).queue@.last()
                    && final(self).queue@ == old(self).queue@.drop_last(),
                None => old(self).queue@.len() == 0 && final(self).queue@ == old(self).queue@,
            },
    {
        self.queue.pop()
    }

    /// Stamps `url` as visited at time `now`.
    pub fn mark_visited_at(&mut self, url: String, now: u64)
        requires
            old(self).wf(),
        ensures
            final(self).wf(),
            final(self).graph@.visited == old(self).graph@.visited.insert(url@, now),
            final(self).graph@.domains == old(self).graph@.domains,
            final(self).graph@.redirects == old(self).graph@.redirects,
            final(self).queue == old(self).queue,
    {
        self.graph.visited.insert(url, now);
    }

    /// Stamps `url` as visited at the current clock reading.
    pub fn mark_visited(&mut self, url: String)
        requires
            old(self).wf(),
        ensures
            final(self).wf(),
            final(self).graph@.visited.dom() == old(self).graph@.visited.dom().insert(url@),
            forall|k: Seq<char>|
                k != url@ && old(self).graph@.visited.contains_key(k)
                    ==> final(self).graph@.visited[k] == old(self).graph@.visited[k],
            final(self).graph@.domains == old(self).graph@.domains,
            final(self).graph@.redirects == old(self).graph@.redirects,
            final(self).queue == old(self).queue,
    {
        let now = now_seconds();
        self.mark_visited_at(url, now);
    }

    /// Records that `from` was observed to redirect to `to`.
    pub fn add_redirect(&mut self, from: String, to: String)
        requires
            old(self).wf(),
        ensures
            final(self).wf(),
            final(self).graph@.redirects == old(self).graph@.redirects.insert(from@, to@),
            final(self).graph@.domains == old(self).graph@.domains,
            final(self).graph@.visited == old(self).graph@.visited,
            final(self).queue == old(self).queue,
    {
        self.graph.redirects.insert(from, to);
    }

    /// Builds the manager: purges the given graph, then walks every
    /// surviving domain entry's recorded links, resolves each link's
    /// redirect, filters by both policies, resolves the survivor against
    /// the owning domain's URL, appends it to the given frontier, and
    /// normalizes the result. The final frontier holds, once each, exactly
    /// the given entries that both policies keep and the seeded URLs.
    #[verifier::loop_isolation(false)]
    pub fn new_at(queue: Vec<String>, graph: Graph, now: u64) -> (m: Manager)
        requires
            graph.wf(),
        ensures
            m.wf(),
            domains_shrunk(graph@, m.graph@),
            purge_preserves(graph@, m.graph@),
            no_purge_eligible_domains(m.graph@),
            no_self_loop_domains(m.graph@),
            no_dup_urls(m.queue@),
            url_views(m.queue@).to_set() == url_views(queue@).filter(
                frontier_keep(m.graph@, now),
            ).to_set().union(seed_set(m.graph@, now)),
    {
        let ghost vq = url_views(queue@);
        let mut m = Manager { queue, graph };
        m.purge_at(now);
        let ghost gf = m.graph@;
        let ghost base = url_views(m.queue@).to_set();
        let ghost pairs = m.graph.domains.pairs@;
        let n = m.graph.domains.pairs.len();
        let mut i: usize = 0;
        while i < n
            invariant
                i <= n,
                m.wf(),
                m.graph@ == gf,
                m.graph.domains.pairs@ == pairs,
                forall|u: Seq<char>|
                    url_views(m.queue@).to_set().contains(u) ==> base.contains(u)
                        || is_seed_candidate(gf, now, u),
                forall|u: Seq<char>| base.contains(u) ==> url_views(m.queue@).to_set().contains(u),
                forall|u: Seq<char>|
                    is_seed_candidate_upto(gf, now, pairs, i as int, 0, u) ==> url_views(
                        m.queue@,
                    ).to_set().contains(u),
            decreases n - i,
        {
            let nl = m.graph.domains.pairs[i].1.links.len();
            let mut j: usize = 0;
            while j < nl
                invariant
                    j <= nl,
                    m.wf(),
                    m.graph@ == gf,
                    m.graph.domains.pairs@ == pairs,
                    forall|u: Seq<char>|
                        url_views(m.queue@).to_set().contains(u) ==> base.contains(u)
                            || is_seed_candidate(gf, now, u),
                    forall|u: Seq<char>|
                        base.contains(u) ==> url_views(m.queue@).to_set().contains(u),
                    forall|u: Seq<char>|
                        is_seed_candidate_upto(gf, now, pairs, i as int, j as int, u)
                            ==> url_views(m.queue@).to_set().contains(u),
                decreases nl - j,
            {
                let resolved = m.graph.resolve(&m.graph.domains.pairs[i].1.links[j].url);
                let ghost joined = join_url(pairs[i as int].0@, resolved@);
                let eligible = !m.should_be_purged(&resolved) && m.should_be_queued_at(
                    &resolved,
                    now,
                );
                proof {
                    crate::strmap::lemma_alist_index_value(pairs, i as int);
                    assert(gf.domains[pairs[i as int].0@] == pairs[i as int].1@);
                    assert(pairs[i as int].1@[j as int]
                        == pairs[i as int].1.links@[j as int].url@);
                    assert(gf.domains[pairs[i as int].0@][j as int] == pairs[i as int].1@[j as int]);
                }
                if eligible {
                    match trusted::resolve_absolute(&m.graph.domains.pairs[i].0, &resolved) {
                        Some(u) => {
                            let ghost uv = u@;
                            let ghost qprev = m.queue@;
                            m.queue.push(u);
                            proof {
                                assert(url_views(m.queue@) =~= url_views(qprev).push(uv));
                                frontier::lemma_to_set_push(url_views(qprev), uv);
                                assert(joined == Some(uv));
                                assert(is_seed_candidate(gf, now, uv));
                            }
                        },
                        None => {},
                    }
                }
                proof {
                    assert forall|u: Seq<char>|
                        is_seed_candidate_upto(
                            gf,
                            now,
                            pairs,
                            i as int,
                            j + 1,
                            u,
                        ) implies url_views(m.queue@).to_set().contains(u) by {
                        let (di, li): (int, int) = choose|di: int, li: int|
                            #![trigger pairs[di].1@[li]]
                            {
                                &&& 0 <= di < pairs.len()
                                &&& 0 <= li < pairs[di].1@.len()
                                &&& (di < i as int || (di == i as int && li < j + 1))
                                &&& !spec_should_be_purged(gf, spec_resolve(gf, pairs[di].1@[li]))
                                &&& spec_should_be_queued(
                                    gf,
                                    spec_resolve(gf, pairs[di].1@[li]),
                                    now,
                                )
                                &&& join_url(pairs[di].0@, spec_resolve(gf, pairs[di].1@[li]))
                                    == Some(u)
                            };
                        if di < i as int || (di == i as int && li < j as int) {
                            assert(is_seed_candidate_upto(gf, now, pairs, i as int, j as int, u));
                        } else {
                            assert(di == i as int && li == j as int);
                            assert(spec_resolve(gf, pairs[di].1@[li]) == resolved@);
                            assert(eligible);
                            assert(joined == Some(u));
                        }
                    }
                }
                j = j + 1;
            }
            proof {
                assert forall|u: Seq<char>|
                    is_seed_candidate_upto(
                        gf,
                        now,
                        pairs,
                        i + 1,
                        0,
                        u,
                    ) implies url_views(m.queue@).to_set().contains(u) by {
                    let (di, li): (int, int) = choose|di: int, li: int|
                        #![trigger pairs[di].1@[li]]
                        {
                            &&& 0 <= di < pairs.len()
                            &&& 0 <= li < pairs[di].1@.len()
                            &&& (di < i + 1 || (di == i + 1 && li < 0))
                            &&& !spec_should_be_purged(gf, spec_resolve(gf, pairs[di].1@[li]))
                            &&& spec_should_be_queued(gf, spec_resolve(gf, pairs[di].1@[li]), now)
                            &&& join_url(pairs[di].0@, spec_resolve(gf, pairs[di].1@[li])) == Some(
                                u,
                            )
                        };
                    assert(di < i as int || (di == i as int && li < nl as int));
                    assert(is_seed_candidate_upto(gf, now, pairs, i as int, nl as int, u));
                }
            }
            i = i + 1;
        }
        proof {
            assert forall|u: Seq<char>|
                is_seed_candidate(gf, now, u) implies url_views(m.queue@).to_set().contains(u) by {
                let (host, li): (Seq<char>, int) = choose|host: Seq<char>, li: int|
                    #![trigger gf.domains[host][li]]
                    {
                        &&& gf.domains.contains_key(host)
                        &&& 0 <= li < gf.domains[host].len()
                        &&& !spec_should_be_purged(gf, spec_resolve(gf, gf.domains[host][li]))
                        &&& spec_should_be_queued(gf, spec_resolve(gf, gf.domains[host][li]), now)
                        &&& join_url(host, spec_resolve(gf, gf.domains[host][li])) == Some(u)
                    };
                let di = alist_key_index(pairs, host);
                assert(0 <= di < pairs.len() && pairs[di].0@ == host);
                crate::strmap::lemma_alist_index_value(pairs, di);
                assert(pairs[di].1@ == gf.domains[host]);
                assert(pairs[di].1@[li] == gf.domains[host][li]);
                assert(is_seed_candidate_upto(gf, now, pairs, n as int, 0, u));
            }
        }
        m.normalize();
        proof {
            assert forall|u: Seq<char>|
                url_views(m.queue@).to_set().contains(u) implies base.union(
                seed_set(gf, now),
            ).contains(u) by {}
            assert forall|u: Seq<char>|
                base.union(seed_set(gf, now)).contains(u) implies url_views(
                m.queue@,
            ).to_set().contains(u) by {}
            assert(url_views(m.queue@).to_set() =~= base.union(seed_set(gf, now)));
            // deduplication does not change which entries the purge filter keeps
            let keepf = frontier_keep(gf, now);
            frontier::lemma_filter_set(dedup_first(vq), keepf);
            frontier::lemma_dedup_first_elems(vq);
            frontier::lemma_filter_set(vq, keepf);
            assert(dedup_first(vq).filter(keepf).to_set() =~= vq.filter(keepf).to_set());
        }
        m
    }

    /// Builds the manager at the current clock reading; see `new_at`. The
    /// clock value cannot be pinned, so the frontier equation holds for the
    /// query time that was read, stated existentially.
    pub fn new(queue: Vec<String>, graph: Graph) -> (m: Manager)
        requires
            graph.wf(),
        ensures
            m.wf(),
            domains_shrunk(graph@, m.graph@),
            purge_preserves(graph@, m.graph@),
            no_purge_eligible_domains(m.graph@),
            no_self_loop_domains(m.graph@),
            no_dup_urls(m.queue@),
            exists|now: u64|
                url_views(m.queue@).to_set() == url_views(queue@).filter(
                    #[trigger] frontier_keep(m.graph@, now),
                ).to_set().union(seed_set(m.graph@, now)),
    {
        let now = now_seconds();
        let m = Manager::new_at(queue, graph, now);
        proof {
            assert(url_views(m.queue@).to_set() == url_views(queue@).filter(
                frontier_keep(m.graph@, now),
            ).to_set().union(seed_set(m.graph@, now)));
        }
        m
    }

    /// Sweeps the whole domain map, evicting entries that are purge-eligible
    /// at the moment they are examined (and re-examining each entry's
    /// recorded links the same way), then deduplicates the frontier by
    /// content and keeps only the entries that are still purge-ineligible
    /// and revisit-eligible under the swept graph. No surviving domain
    /// entry is purge-eligible afterwards, which is what makes a second
    /// sweep at the same query time a no-op (`lemma_purge_idempotent`).
    #[verifier::loop_isolation(false)]
    pub fn purge_at(&mut self, now: u64)
        requires
            old(self).wf(),
        ensures
            final(self).wf(),
            domains_shrunk(old(self).graph@, final(self).graph@),
            purge_preserves(old(self).graph@, final(self).graph@),
            no_purge_eligible_domains(final(self).graph@),
            no_self_loop_domains(final(self).graph@),
            no_dup_urls(final(self).queue@),
            url_views(final(self).queue@) == dedup_first(url_views(old(self).queue@)).filter(
                frontier_keep(final(self).graph@, now),
            ),
    {
        let ghost g0 = self.graph@;
        // The sweep mutates the live map, so it walks a snapshot of the
        // entries; decisions are made against the mutated state.
        let n = self.graph.domains.pairs.len();
        let mut snap: Vec<(String, DomainInfo)> = Vec::new();
        let mut i: usize = 0;
        while i < n
            invariant
                snap@.len() == i,
                i <= n,
                forall|j: int|
                    0 <= j < i ==> snap@[j].0@ == self.graph.domains.pairs@[j].0@ && snap@[j].1@
                        == self.graph.domains.pairs@[j].1@,
            decreases n - i,
        {
            let key = self.graph.domains.pairs[i].0.clone();
            let value = self.graph.domains.pairs[i].1.duplicate();
            snap.push((key, value));
            i = i + 1;
        }
        proof {
            assert forall|k: Seq<char>| g0.domains.contains_key(k) implies exists|j: int|
                0 <= j < n && snap@[j].0@ == k by {
                let j = alist_key_index(self.graph.domains.pairs@, k);
                assert(0 <= j < n && self.graph.domains.pairs@[j].0@ == k);
                assert(snap@[j].0@ == k);
            }
        }
        let mut i: usize = 0;
        while i < n
            invariant
                self.wf(),
                i <= n,
                domains_shrunk(g0, self.graph@),
                purge_preserves(g0, self.graph@),
                self.queue == old(self).queue,
                forall|j: int|
                    0 <= j < i && self.graph@.domains.contains_key(#[trigger] snap@[j].0@)
                        ==> !spec_should_be_purged(self.graph@, snap@[j].0@),
            decreases n - i,
        {
            let eligible = self.should_be_purged(&snap[i].0);
            let ghost gc = self.graph@;
            if eligible {
                self.graph.domains.remove(&snap[i].0);
                proof {
                    lemma_purge_step(g0, gc, self.graph@, snap@[i as int].0@);
                }
            }
            let m = snap[i].1.links.len();
            let mut j2: usize = 0;
            while j2 < m
                invariant
                    self.wf(),
                    j2 <= m,
                    domains_shrunk(g0, self.graph@),
                    purge_preserves(g0, self.graph@),
                    self.queue == old(self).queue,
                    forall|j: int|
                        0 <= j <= i && self.graph@.domains.contains_key(#[trigger] snap@[j].0@)
                            ==> !spec_should_be_purged(self.graph@, snap@[j].0@),
                decreases m - j2,
            {
                let eligible2 = self.should_be_purged(&snap[i].1.links[j2].url);
                let ghost gc2 = self.graph@;
                if eligible2 {
                    self.graph.domains.remove(&snap[i].1.links[j2].url);
                    proof {
                        lemma_purge_step(
                            g0,
                            gc2,
                            self.graph@,
                            snap@[i as int].1.links@[j2 as int].url@,
                        );
                    }
                }
                j2 = j2 + 1;
            }
            i = i + 1;
        }
        proof {
            assert forall|k: Seq<char>| self.graph@.domains.contains_key(
                k,
            ) implies !spec_should_be_purged(self.graph@, k) by {
                let j = choose|j: int| 0 <= j < n && snap@[j].0@ == k;
            }
            assert(no_purge_eligible_domains(self.graph@));
        }
        // Frontier sweep: the graph no longer changes, so each entry is
        // kept or dropped by its value alone.
        let ghost gf = self.graph@;
        let ghost q0v = url_views(self.queue@);
        let deduped = frontier::dedup_urls(&self.queue);
        self.queue = deduped;
        let nq = self.queue.len();
        let mut kept: Vec<String> = Vec::new();
        let mut qi: usize = 0;
        while qi < nq
            invariant
                qi <= nq,
                url_views(kept@) == url_views(self.queue@.subrange(0, qi as int)).filter(
                    frontier_keep(gf, now),
                ),
            decreases nq - qi,
        {
            let keep = !self.should_be_purged(&self.queue[qi]) && self.should_be_queued_at(
                &self.queue[qi],
                now,
            );
            let ghost prefix = url_views(self.queue@.subrange(0, qi as int));
            let ghost entry = self.queue@[qi as int]@;
            if keep {
                kept.push(self.queue[qi].clone());
            }
            proof {
                reveal(Seq::filter);
                let p1 = url_views(self.queue@.subrange(0, qi + 1));
                assert(self.queue@.subrange(0, qi + 1) =~= self.queue@.subrange(
                    0,
                    qi as int,
                ).push(self.queue@[qi as int]));
                assert(p1 =~= prefix.push(entry));
                assert(p1.drop_last() =~= prefix);
                assert(p1.last() == entry);
                assert(keep == frontier_keep(gf, now)(entry));
                assert(url_views(kept@) == p1.filter(frontier_keep(gf, now)));
            }
            qi = qi + 1;
        }
        proof {
            assert(self.queue@.subrange(0, nq as int) =~= self.queue@);
            assert(url_views(kept@) == dedup_first(q0v).filter(frontier_keep(gf, now)));
            frontier::lemma_dedup_first_elems(q0v);
            frontier::lemma_filter_no_dup(dedup_first(q0v), frontier_keep(gf, now));
        }
        self.queue = kept;
    }

    /// Records the result of fetching `real_url`. A purge-eligible
    /// `real_url` only has any existing domain entry removed, with no
    /// enqueue of its links. Otherwise every discovered link that is not
    /// yet a known domain and is revisit-eligible is resolved against
    /// `real_url` and appended to the frontier, the entry is stored, and
    /// the whole state is purged.
    #[verifier::loop_isolation(false)]
    pub fn save_at(&mut self, real_url: String, info: DomainInfo, now: u64)
        requires
            old(self).wf(),
        ensures
            final(self).wf(),
            spec_should_be_purged(old(self).graph@, real_url@) ==> {
                &&& final(self).graph@.domains == old(self).graph@.domains.remove(real_url@)
                &&& final(self).graph@.visited == old(self).graph@.visited
                &&& final(self).graph@.redirects == old(self).graph@.redirects
                &&& final(self).queue == old(self).queue
            },
            !spec_should_be_purged(old(self).graph@, real_url@) ==> {
                let mid = GraphModel {
                    domains: old(self).graph@.domains.insert(real_url@, info@),
                    visited: old(self).graph@.visited,
                    redirects: old(self).graph@.redirects,
                };
                &&& domains_shrunk(mid, final(self).graph@)
                &&& purge_preserves(mid, final(self).graph@)
                &&& no_purge_eligible_domains(final(self).graph@)
                &&& no_self_loop_domains(final(self).graph@)
                &&& no_dup_urls(final(self).queue@)
                &&& url_views(final(self).queue@) == dedup_first(
                    url_views(old(self).queue@) + save_pushes(
                        old(self).graph@,
                        real_url@,
                        info@,
                        now,
                    ),
                ).filter(frontier_keep(final(self).graph@, now))
            },
    {
        if self.should_be_purged(&real_url) {
            self.graph.domains.remove(&real_url);
            return;
        }
        let ghost g0 = self.graph@;
        let ghost q0 = self.queue@;
        let m = info.links.len();
        let mut j: usize = 0;
        while j < m
            invariant
                j <= m,
                self.graph == old(self).graph,
                url_views(self.queue@) == url_views(q0) + save_pushes(
                    g0,
                    real_url@,
                    info@.subrange(0, j as int),
                    now,
                ),
            decreases m - j,
        {
            let ghost qprev = self.queue@;
            let ghost prefix = info@.subrange(0, j as int);
            if !self.graph.domains.contains_key(&info.links[j].url) && self.should_be_queued_at(
                &info.links[j].url,
                now,
            ) {
                match trusted::resolve_absolute(&real_url, &info.links[j].url) {
                    Some(u) => {
                        let ghost uv = u@;
                        self.queue.push(u);
                        proof {
                            assert(url_views(self.queue@) =~= url_views(qprev).push(uv));
                        }
                    },
                    None => {},
                }
            }
            proof {
                let p1 = info@.subrange(0, j + 1);
                assert(p1 =~= prefix.push(info@[j as int]));
                assert(p1.drop_last() =~= prefix);
                assert(p1.last() == info@[j as int]);
                assert(info@[j as int] == info.links@[j as int].url@);
                assert(url_views(self.queue@) =~= url_views(q0) + save_pushes(
                    g0,
                    real_url@,
                    p1,
                    now,
                ));
            }
            j = j + 1;
        }
        proof {
            assert(info@.subrange(0, m as int) =~= info@);
        }
        self.graph.domains.insert(real_url, info);
        self.purge_at(now);
    }

    /// Records the result of fetching `real_url` at the current clock
    /// reading; see `save_at`. The clock value cannot be pinned, so the
    /// frontier equation holds for the query time that was read, stated
    /// existentially; the graph clauses are clock-independent.
    pub fn save(&mut self, real_url: String, info: DomainInfo)
        requires
            old(self).wf(),
        ensures
            final(self).wf(),
            spec_should_be_purged(old(self).graph@, real_url@) ==> {
                &&& final(self).graph@.domains == old(self).graph@.domains.remove(real_url@)
                &&& final(self).graph@.visited == old(self).graph@.visited
                &&& final(self).graph@.redirects == old(self).graph@.redirects
                &&& final(self).queue == old(self).queue
            },
            !spec_should_be_purged(old(self).graph@, real_url@) ==> {
                let mid = GraphModel {
                    domains: old(self).graph@.domains.insert(real_url@, info@),
                    visited: old(self).graph@.visited,
                    redirects: old(self).graph@.redirects,
                };
                &&& domains_shrunk(mid, final(self).graph@)
                &&& purge_preserves(mid, final(self).graph@)
                &&& no_purge_eligible_domains(final(self).graph@)
                &&& no_self_loop_domains(final(self).graph@)
                &&& no_dup_urls(final(self).queue@)
                &&& exists|now: u64|
                    url_views(final(self).queue@) == dedup_first(
                        url_views(old(self).queue@) + save_pushes(
                            old(self).graph@,
                            real_url@,
                            info@,
                            now,
                        ),
                    ).filter(#[trigger] frontier_keep(final(self).graph@, now))
            },
    {
        let now = now_seconds();
        let ghost g_old = self.graph@;
        let ghost q_old = self.queue@;
        self.save_at(real_url, info, now);
        proof {
            if !spec_should_be_purged(g_old, real_url@) {
                assert(url_views(self.queue@) == dedup_first(
                    url_views(q_old) + save_pushes(g_old, real_url@, info@, now),
                ).filter(frontier_keep(self.graph@, now)));
            }
        }
    }

    /// Deduplicates the frontier by string content, keeping one entry of
    /// each, then randomly permutes it.
    pub fn normalize(&mut self)
        ensures
            final(self).graph == old(self).graph,
            no_dup_urls(final(self).queue@),
            url_views(final(self).queue@).to_set() == url_views(old(self).queue@).to_set(),
    {
        let deduped = frontier::dedup_urls(&self.queue);
        self.queue = deduped;
        let ghost before = url_views(self.queue@);
        trusted::shuffle_urls(&mut self.queue);
        proof {
            let after = url_views(self.queue@);
            before.to_multiset_ensures();
            after.to_multiset_ensures();
            assert forall|u: Seq<char>| #[trigger] after.contains(u) <==> before.contains(u) by {
                assert(after.contains(u) <==> after.to_multiset().count(u) > 0);
                assert(before.contains(u) <==> before.to_multiset().count(u) > 0);
            }
            assert(after.to_set() =~= before.to_set());
            before.lemma_multiset_has_no_duplicates();
            after.lemma_multiset_has_no_duplicates_conv();
        }
    }
}

} // verus!
