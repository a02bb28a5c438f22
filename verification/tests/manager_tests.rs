use scraper::graph::DomainInfo;
use scraper::graph::Graph;
use scraper::graph::Link;
use scraper::manager::Manager;

const NOW: u64 = 1_700_000_000;

fn empty_manager() -> Manager {
    Manager { queue: Vec::new(), graph: Graph::new() }
}

fn sorted_queue(m: &Manager) -> Vec<String> {
    let mut q = m.queue.clone();
    q.sort();
    q
}

#[test]
fn save_of_self_loop_removes_domain() {
    let mut m = empty_manager();
    let d = String::from("http://d/");
    m.graph.domains.insert(d.clone(), DomainInfo { links: vec![Link { url: String::from("http://e/") }] });
    m.save_at(d.clone(), DomainInfo { links: vec![Link { url: d.clone() }] }, NOW);
    assert!(!m.graph.domains.contains_key(&d));
}

#[test]
fn save_of_purge_eligible_url_removes_entry_and_enqueues_nothing() {
    let mut m = empty_manager();
    let yt = String::from("https://youtube.com/");
    m.graph.domains.insert(yt.clone(), DomainInfo { links: Vec::new() });
    m.save_at(
        yt.clone(),
        DomainInfo { links: vec![Link { url: String::from("https://elsewhere.com/") }] },
        NOW,
    );
    assert!(!m.graph.domains.contains_key(&yt));
    assert_eq!(m.queue.len(), 0);
}

#[test]
fn save_resolves_relative_links_against_real_url() {
    let mut m = empty_manager();
    m.save_at(
        String::from("http://x/"),
        DomainInfo { links: vec![Link { url: String::from("a.html") }] },
        NOW,
    );
    assert_eq!(m.queue, vec![String::from("http://x/a.html")]);
    assert_eq!(m.dequeue(), Some(String::from("http://x/a.html")));
    assert_eq!(m.dequeue(), None);
}

#[test]
fn save_skips_known_domains_and_recently_visited_links() {
    let mut m = empty_manager();
    let known = String::from("http://known/");
    let seen = String::from("http://seen/");
    m.graph.domains.insert(known.clone(), DomainInfo { links: Vec::new() });
    m.mark_visited_at(seen.clone(), NOW - 10);
    m.save_at(
        String::from("http://x/"),
        DomainInfo {
            links: vec![
                Link { url: known.clone() },
                Link { url: seen.clone() },
                Link { url: String::from("http://fresh/") },
            ],
        },
        NOW,
    );
    assert_eq!(m.queue, vec![String::from("http://fresh/")]);
}

#[test]
fn purge_drops_self_loop_domains_and_keeps_the_rest() {
    let mut m = empty_manager();
    let looped = String::from("http://loop/");
    let sound = String::from("http://sound/");
    m.graph.domains.insert(looped.clone(), DomainInfo { links: vec![Link { url: looped.clone() }] });
    m.graph.domains.insert(sound.clone(), DomainInfo { links: vec![Link { url: String::from("http://other/") }] });
    m.purge_at(NOW);
    assert!(!m.graph.domains.contains_key(&looped));
    assert!(m.graph.domains.contains_key(&sound));
}

#[test]
fn purge_sweeps_stale_frontier_entries() {
    let mut m = empty_manager();
    let stale = String::from("http://stale/");
    let fresh = String::from("http://fresh/");
    m.queue = vec![stale.clone(), fresh.clone(), String::from("  ")];
    m.mark_visited_at(stale.clone(), NOW - 100);
    m.purge_at(NOW);
    assert_eq!(m.queue, vec![fresh]);
}

#[test]
fn normalize_deduplicates_membership() {
    let mut m = empty_manager();
    m.queue = vec![
        String::from("http://x/a"),
        String::from("http://x/a"),
        String::from("http://x/b"),
    ];
    m.normalize();
    assert_eq!(m.queue.len(), 2);
    assert_eq!(sorted_queue(&m), vec![String::from("http://x/a"), String::from("http://x/b")]);
}

#[test]
fn normalize_of_normalized_queue_keeps_membership() {
    let mut m = empty_manager();
    m.queue = vec![
        String::from("http://x/a"),
        String::from("http://x/b"),
        String::from("http://x/c"),
    ];
    let before = sorted_queue(&m);
    m.normalize();
    let after = sorted_queue(&m);
    assert_eq!(before, after);
    m.normalize();
    assert_eq!(sorted_queue(&m), after);
}

#[test]
fn dequeue_is_lifo() {
    let mut m = empty_manager();
    m.queue = vec![String::from("http://x/1"), String::from("http://x/2")];
    assert_eq!(m.dequeue(), Some(String::from("http://x/2")));
    assert_eq!(m.dequeue(), Some(String::from("http://x/1")));
    assert_eq!(m.dequeue(), None);
}

#[test]
fn add_redirect_then_lookup() {
    let mut m = empty_manager();
    let a = String::from("http://a/");
    let b = String::from("http://b/");
    m.add_redirect(a.clone(), b.clone());
    assert_eq!(m.graph.resolve(&a), b);
    assert_eq!(m.graph.resolve(&b), b);
}

#[test]
fn seeding_builds_frontier_from_graph_edges() {
    let mut graph = Graph::new();
    graph.domains.insert(
        String::from("http://x/"),
        DomainInfo { links: vec![Link { url: String::from("p.html") }] },
    );
    let m = Manager::new_at(vec![String::from("http://q/")], graph, NOW);
    assert_eq!(
        sorted_queue(&m),
        vec![String::from("http://q/"), String::from("http://x/p.html")],
    );
}

#[test]
fn seeding_respects_redirects_and_policies() {
    let mut graph = Graph::new();
    graph.domains.insert(
        String::from("http://x/"),
        DomainInfo {
            links: vec![Link { url: String::from("http://a/") }, Link { url: String::from("http://c/") }],
        },
    );
    // a redirects to b, and b was just visited: the link is dropped
    graph.redirects.insert(String::from("http://a/"), String::from("http://b/"));
    graph.visited.insert(String::from("http://b/"), NOW - 5);
    let m = Manager::new_at(Vec::new(), graph, NOW);
    assert_eq!(sorted_queue(&m), vec![String::from("http://c/")]);
}

#[test]
fn seeding_purges_the_loaded_graph_first() {
    let mut graph = Graph::new();
    let looped = String::from("http://loop/");
    graph.domains.insert(looped.clone(), DomainInfo { links: vec![Link { url: looped.clone() }] });
    let m = Manager::new_at(Vec::new(), graph, NOW);
    assert!(!m.graph.domains.contains_key(&looped));
    assert_eq!(m.queue.len(), 0);
}

#[test]
fn new_with_empty_graph_has_empty_frontier() {
    let mut m = Manager::new(Vec::new(), Graph::new());
    assert_eq!(m.dequeue(), None);
}

#[test]
fn mark_visited_stamps_the_clock() {
    let mut m = empty_manager();
    let u = String::from("http://x/a");
    m.mark_visited(u.clone());
    // whatever the clock read, the visit is recorded
    assert!(m.graph.visited.contains_key(&u));
}

#[test]
fn save_with_duplicate_links_enqueues_once() {
    let mut m = empty_manager();
    m.save_at(
        String::from("http://x/"),
        DomainInfo {
            links: vec![Link { url: String::from("a.html") }, Link { url: String::from("a.html") }],
        },
        NOW,
    );
    assert_eq!(m.queue, vec![String::from("http://x/a.html")]);
}

#[test]
fn purge_deduplicates_the_frontier() {
    let mut m = empty_manager();
    m.queue = vec![
        String::from("http://x/a"),
        String::from("http://x/b"),
        String::from("http://x/a"),
    ];
    m.purge_at(NOW);
    assert_eq!(m.queue, vec![String::from("http://x/a"), String::from("http://x/b")]);
}

#[test]
fn purge_twice_changes_nothing() {
    let mut m = empty_manager();
    let looped = String::from("http://loop/");
    let sound = String::from("http://sound/");
    m.graph.domains.insert(looped.clone(), DomainInfo { links: vec![Link { url: looped.clone() }] });
    m.graph.domains.insert(sound.clone(), DomainInfo { links: vec![Link { url: String::from("http://other/") }] });
    m.queue = vec![String::from("http://fresh/"), String::from("  ")];
    m.purge_at(NOW);
    let domains_after: Vec<String> = m.graph.domains.pairs.iter().map(|p| p.0.clone()).collect();
    let queue_after = m.queue.clone();
    m.purge_at(NOW);
    let domains_again: Vec<String> = m.graph.domains.pairs.iter().map(|p| p.0.clone()).collect();
    assert_eq!(domains_again, domains_after);
    assert_eq!(m.queue, queue_after);
}
