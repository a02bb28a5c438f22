//! The in-memory data model: fetched domains with their outgoing links,
//! visit timestamps, and observed HTTP redirects.

use vstd::prelude::*;
use crate::strmap::StrMap;

verus! {

/// A raw (possibly relative) URL as found on a page.
pub struct Link {
    pub url: String,
}

impl View for Link {
    type V = Seq<char>;

    open spec fn view(&self) -> Seq<char> {
        self.url@
    }
}

impl Link {
    pub fn duplicate(&self) -> (r: Link)
        ensures
            r@ == self@,
    {
        Link { url: self.url.clone() }
    }
}

/// The outgoing edges discovered when a URL was fetched.
pub struct DomainInfo {
    pub links: Vec<Link>,
}

impl View for DomainInfo {
    type V = Seq<Seq<char>>;

    open spec fn view(&self) -> Seq<Seq<char>> {
        self.links@.map_values(|l: Link| l@)
    }
}

impl DomainInfo {
    pub fn duplicate(&self) -> (r: DomainInfo)
        ensures
            r@ == self@,
    {
        let mut links: Vec<Link> = Vec::new();
        let mut i: usize = 0;
        let n = self.links.len();
        while i < n
            invariant
                n == self.links@.len(),
                i <= n,
                links@.len() == i,
                forall|j: int| 0 <= j < i ==> links@[j]@ == self.links@[j]@,
            decreases n - i,
        {
            links.push(self.links[i].duplicate());
            i = i + 1;
        }
        let r = DomainInfo { links };
        proof {
            assert(r@ =~= self@);
        }
        r
    }
}

/// The mathematical meaning of a graph: three maps over string contents.
pub struct GraphModel {
    pub domains: Map<Seq<char>, Seq<Seq<char>>>,
    pub visited: Map<Seq<char>, u64>,
    pub redirects: Map<Seq<char>, Seq<char>>,
}

/// The root aggregate: domains, visit timestamps, redirects.
pub struct Graph {
    pub domains: StrMap<DomainInfo>,
    pub visited: StrMap<u64>,
    pub redirects: StrMap<String>,
}

impl View for Graph {
    type V = GraphModel;

    open spec fn view(&self) -> GraphModel {
        GraphModel {
            domains: self.domains@,
            visited: self.visited@,
            redirects: self.redirects@,
        }
    }
}

/// The one-hop redirect target of `url`, or `url` itself when none is recorded.
pub open spec fn spec_resolve(g: GraphModel, url: Seq<char>) -> Seq<char> {
    if g.redirects.contains_key(url) {
        g.redirects[url]
    } else {
        url
    }
}

impl Graph {
    pub open spec fn wf(self) -> bool {
        self.domains.wf() && self.visited.wf() && self.redirects.wf()
    }

    pub fn new() -> (r: Graph)
        ensures
            r.wf(),
            r@.domains == Map::<Seq<char>, Seq<Seq<char>>>::empty(),
            r@.visited == Map::<Seq<char>, u64>::empty(),
            r@.redirects == Map::<Seq<char>, Seq<char>>::empty(),
    {
        Graph { domains: StrMap::new(), visited: StrMap::new(), redirects: StrMap::new() }
    }

    /// Single-hop redirect resolution; chains are deliberately not chased.
    pub fn resolve(&self, url: &String) -> (r: String)
        requires
            self.wf(),
        ensures
            r@ == spec_resolve(self@, url@),
    {
        match self.redirects.get(url) {
            Some(t) => t.clone(),
            None => url.clone(),
        }
    }
}

impl Default for Graph {
    /// An empty graph.
    fn default() -> (r: Graph)
        ensures
            r.wf(),
            r@.domains == Map::<Seq<char>, Seq<Seq<char>>>::empty(),
            r@.visited == Map::<Seq<char>, u64>::empty(),
            r@.redirects == Map::<Seq<char>, Seq<char>>::empty(),
    {
        Graph::new()
    }
}

} // verus!
