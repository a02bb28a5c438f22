use scraper::graph::DomainInfo;
use scraper::graph::Graph;
use scraper::graph::Link;
use scraper::manager::Manager;

fn empty_manager() -> Manager {
    Manager { queue: Vec::new(), graph: Graph::new() }
}

#[test]
fn blank_urls_are_purged() {
    let m = empty_manager();
    assert!(m.should_be_purged(&String::from("")));
    assert!(m.should_be_purged(&String::from("   ")));
}

#[test]
fn ordinary_url_is_not_purged() {
    let m = empty_manager();
    assert!(!m.should_be_purged(&String::from("https://example.com/")));
}

#[test]
fn denylisted_host_is_purged() {
    let m = empty_manager();
    assert!(m.should_be_purged(&String::from("https://youtube.com/watch?v=abc")));
    assert!(!m.should_be_purged(&String::from("https://youtube.example.com/")));
}

#[test]
fn self_loop_domain_is_purged() {
    let mut m = empty_manager();
    let d = String::from("http://d/");
    m.graph.domains.insert(d.clone(), DomainInfo { links: vec![Link { url: d.clone() }] });
    assert!(m.should_be_purged(&d));
}

#[test]
fn two_link_domain_is_not_purged() {
    let mut m = empty_manager();
    let d = String::from("http://d/");
    m.graph.domains.insert(
        d.clone(),
        DomainInfo {
            links: vec![Link { url: d.clone() }, Link { url: String::from("http://e/") }],
        },
    );
    assert!(!m.should_be_purged(&d));
}

#[test]
fn redirected_self_loop_is_purged() {
    let mut m = empty_manager();
    let a = String::from("http://a/");
    let b = String::from("http://b/");
    // b's only recorded link is a; a redirects to b
    m.graph.domains.insert(b.clone(), DomainInfo { links: vec![Link { url: a.clone() }] });
    m.graph.redirects.insert(a.clone(), b.clone());
    assert!(m.should_be_purged(&a));
}

#[test]
fn revisit_window_boundaries() {
    let mut m = empty_manager();
    let u = String::from("http://x/a");
    let t: u64 = 5000;
    m.mark_visited_at(u.clone(), t);
    assert!(!m.should_be_queued_at(&u, t));
    assert!(!m.should_be_queued_at(&u, t + 604799));
    assert!(m.should_be_queued_at(&u, t + 604800));
    assert!(m.should_be_queued_at(&u, t + 700000));
}

#[test]
fn visit_within_the_hour_blocks_requeue() {
    let mut m = empty_manager();
    let u = String::from("http://x/a");
    let t: u64 = 1_700_000_000;
    m.mark_visited_at(u.clone(), t);
    assert!(!m.should_be_queued_at(&u, t + 3600));
    assert!(m.should_be_queued_at(&u, t + 700000));
}

#[test]
fn recent_redirect_target_blocks_requeue() {
    let mut m = empty_manager();
    let a = String::from("http://a/");
    let b = String::from("http://b/");
    m.add_redirect(a.clone(), b.clone());
    let t: u64 = 9000;
    m.mark_visited_at(b.clone(), t);
    // a itself was never visited, yet its redirect target was, recently
    assert!(!m.should_be_queued_at(&a, t + 100));
    assert!(m.should_be_queued_at(&a, t + 604800));
}

#[test]
fn later_visit_overwrites_earlier() {
    let mut m = empty_manager();
    let u = String::from("http://x/a");
    m.mark_visited_at(u.clone(), 100);
    m.mark_visited_at(u.clone(), 200);
    assert!(!m.should_be_queued_at(&u, 200 + 604799));
    assert!(m.should_be_queued_at(&u, 200 + 604800));
}

#[test]
fn unvisited_url_is_queueable() {
    let m = empty_manager();
    assert!(m.should_be_queued_at(&String::from("http://never/"), 0));
    assert!(m.should_be_queued_at(&String::from("http://never/"), u64::MAX));
}

#[test]
fn unicode_whitespace_urls_are_purged() {
    let m = empty_manager();
    assert!(m.should_be_purged(&String::from("\u{b}")));
    assert!(m.should_be_purged(&String::from("\u{a0}\u{a0}")));
    assert!(m.should_be_purged(&String::from(" \t\r\n\u{3000}")));
    assert!(!m.should_be_purged(&String::from(" x ")));
}
