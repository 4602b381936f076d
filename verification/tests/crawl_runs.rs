use doc_crawler::crawl::{is_success, Crawl, FetchOutcome, Verdict, Visit};
use doc_crawler::page::PageRecord;
use std::collections::HashMap;

/// One page of a site held in memory: its status and its text.
struct Page {
    code: u16,
    body: String,
}

/// A page that answers 200, with a heading and one anchor per link.
fn page(title: &str, links: &[&str]) -> Page {
    let mut body = format!("<html><body><h1>{}</h1><p>About {}.</p>", title, title);
    for link in links {
        body.push_str(&format!("<a href=\"{}\">next</a>", link));
    }
    body.push_str("</body></html>");
    Page { code: 200, body }
}

fn status(code: u16) -> Page {
    Page { code, body: String::from("<html><body><a href=\"/hidden\">x</a></body></html>") }
}

/// What a run came to: the machine at its end, the addresses fetched in
/// order with their depths, and the verdict on each.
struct Run {
    crawl: Crawl,
    fetched: Vec<(String, usize)>,
    verdicts: Vec<Verdict>,
}

/// Drives a crawl over `site`. An address that the site does not hold fails
/// in transport.
fn run(site: &HashMap<String, Page>, seed: &str, max_depth: usize) -> Run {
    let mut crawl = Crawl::new(seed, max_depth);
    let mut fetched = Vec::new();
    let mut verdicts = Vec::new();
    let mut steps = 0;
    while let Some(visit) = crawl.next_fetch() {
        steps += 1;
        assert!(steps < 10_000, "the crawl does not end");
        fetched.push((visit.url.clone(), visit.depth));
        let outcome = match site.get(&visit.url) {
            Some(found) => FetchOutcome::HttpStatus { code: found.code, body: found.body.clone() },
            None => FetchOutcome::TransportFailure,
        };
        verdicts.push(crawl.on_fetched(outcome));
    }
    Run { crawl, fetched, verdicts }
}

fn site_of(pages: Vec<(&str, Page)>) -> HashMap<String, Page> {
    pages.into_iter().map(|(url, found)| (String::from(url), found)).collect()
}

fn urls(records: &[PageRecord]) -> Vec<String> {
    records.iter().map(|record| record.url.clone()).collect()
}

fn titles(records: &[PageRecord]) -> Vec<String> {
    records.iter().map(|record| record.title.clone()).collect()
}

/// The walk written as plain recursion, to hold the machine against.
fn walk(
    site: &HashMap<String, Page>,
    url: &str,
    depth: usize,
    max_depth: usize,
    visited: &mut Vec<String>,
    read: &mut Vec<String>,
) -> bool {
    if depth >= max_depth || visited.iter().any(|seen| seen == url) {
        return true;
    }
    visited.push(String::from(url));
    let found = match site.get(url) {
        Some(found) => found,
        None => return false,
    };
    if !(200..300).contains(&found.code) {
        return true;
    }
    read.push(String::from(url));
    for link in doc_crawler::page::page_links(&found.body, url) {
        if !walk(site, &link, depth + 1, max_depth, visited, read) {
            return false;
        }
    }
    true
}

fn tree() -> HashMap<String, Page> {
    site_of(vec![
        ("https://a.example/", page("Seed", &["/l1", "/l2"])),
        ("https://a.example/l1", page("L1", &["/l1/a", "/l1/b"])),
        ("https://a.example/l2", page("L2", &["/l2/a"])),
        ("https://a.example/l1/a", page("L1a", &["/deep"])),
        ("https://a.example/l1/b", page("L1b", &[])),
        ("https://a.example/l2/a", page("L2a", &[])),
        ("https://a.example/deep", page("Deep", &[])),
    ])
}

#[test]
fn zero_depth_fetches_nothing() {
    let done = run(&tree(), "https://a.example/", 0);
    assert!(done.fetched.is_empty());
    assert!(done.crawl.visited().is_empty());
    assert!(done.crawl.is_finished());
    assert_eq!(done.crawl.into_results(), Some(vec![]));
}

#[test]
fn depth_one_reads_the_seed_only() {
    let done = run(&tree(), "https://a.example/", 1);
    assert_eq!(done.fetched, vec![(String::from("https://a.example/"), 0)]);
    assert_eq!(urls(done.crawl.results()), vec!["https://a.example/"]);
}

#[test]
fn depth_two_stops_below_the_second_level() {
    let done = run(&tree(), "https://a.example/", 2);
    assert_eq!(
        urls(done.crawl.results()),
        vec!["https://a.example/", "https://a.example/l1", "https://a.example/l2"]
    );
    assert_eq!(done.crawl.visited().len(), 3);
}

#[test]
fn no_record_lies_at_or_beyond_the_bound() {
    for max_depth in 0..6 {
        let done = run(&tree(), "https://a.example/", max_depth);
        assert!(done.fetched.iter().all(|(_, depth)| *depth < max_depth));
        assert_eq!(done.fetched.len(), done.crawl.visited().len());
    }
}

#[test]
fn results_come_in_depth_first_pre_order() {
    let done = run(&tree(), "https://a.example/", 3);
    assert_eq!(titles(done.crawl.results()), vec!["Seed", "L1", "L1a", "L1b", "L2", "L2a"]);
    assert_eq!(
        done.fetched,
        vec![
            (String::from("https://a.example/"), 0),
            (String::from("https://a.example/l1"), 1),
            (String::from("https://a.example/l1/a"), 2),
            (String::from("https://a.example/l1/b"), 2),
            (String::from("https://a.example/l2"), 1),
            (String::from("https://a.example/l2/a"), 2),
        ]
    );
}

#[test]
fn deeper_bound_reaches_the_deepest_page() {
    let done = run(&tree(), "https://a.example/", 4);
    assert_eq!(
        titles(done.crawl.results()),
        vec!["Seed", "L1", "L1a", "Deep", "L1b", "L2", "L2a"]
    );
}

#[test]
fn cycle_ends_and_visits_each_page_once() {
    let site = site_of(vec![
        ("https://a.example/a", page("A", &["/b"])),
        ("https://a.example/b", page("B", &["/a"])),
    ]);
    for max_depth in [2usize, 3, 10, 1000] {
        let done = run(&site, "https://a.example/a", max_depth);
        assert_eq!(
            done.crawl.visited(),
            &vec![String::from("https://a.example/a"), String::from("https://a.example/b")]
        );
        assert_eq!(titles(done.crawl.results()), vec!["A", "B"]);
    }
    let shallow = run(&site, "https://a.example/a", 1);
    assert_eq!(titles(shallow.crawl.results()), vec!["A"]);
}

#[test]
fn self_link_is_not_fetched_again() {
    let site = site_of(vec![("https://a.example/", page("Self", &["/", "", "#top"]))]);
    let done = run(&site, "https://a.example/", 5);
    assert_eq!(done.fetched.len(), 2);
    assert_eq!(done.fetched[0], (String::from("https://a.example/"), 0));
    assert_eq!(done.fetched[1], (String::from("https://a.example/#top"), 1));
}

#[test]
fn a_link_found_twice_is_visited_once() {
    let site = site_of(vec![
        ("https://a.example/", page("Seed", &["/x", "/y", "/x"])),
        ("https://a.example/x", page("X", &["/y"])),
        ("https://a.example/y", page("Y", &["/x", "/"])),
    ]);
    let done = run(&site, "https://a.example/", 9);
    assert_eq!(titles(done.crawl.results()), vec!["Seed", "X", "Y"]);
    let mut seen = done.crawl.visited().clone();
    seen.sort();
    seen.dedup();
    assert_eq!(seen.len(), done.crawl.visited().len());
    let mut recorded = urls(done.crawl.results());
    recorded.sort();
    recorded.dedup();
    assert_eq!(recorded.len(), 3);
}

#[test]
fn bad_status_is_skipped_and_its_links_are_not_followed() {
    let site = site_of(vec![
        ("https://a.example/", page("Seed", &["/gone", "/here"])),
        ("https://a.example/gone", status(404)),
        ("https://a.example/here", page("Here", &["/gone"])),
        ("https://a.example/hidden", page("Hidden", &[])),
    ]);
    let done = run(&site, "https://a.example/", 5);
    assert_eq!(done.verdicts, vec![Verdict::Recorded, Verdict::Skipped, Verdict::Recorded]);
    assert_eq!(titles(done.crawl.results()), vec!["Seed", "Here"]);
    assert_eq!(
        done.crawl.visited(),
        &vec![
            String::from("https://a.example/"),
            String::from("https://a.example/gone"),
            String::from("https://a.example/here"),
        ]
    );
    assert!(!done.crawl.has_failed());
}

#[test]
fn bad_status_on_the_seed_gives_an_empty_result() {
    let site = site_of(vec![("https://a.example/", status(500))]);
    let done = run(&site, "https://a.example/", 3);
    assert_eq!(done.verdicts, vec![Verdict::Skipped]);
    assert_eq!(done.crawl.into_results(), Some(vec![]));
}

#[test]
fn transport_failure_ends_the_crawl_without_a_result() {
    let site = site_of(vec![
        ("https://a.example/", page("Seed", &["/l1", "/l2"])),
        ("https://a.example/l1", page("L1", &["/lost", "/l1/b"])),
        ("https://a.example/l2", page("L2", &[])),
        ("https://a.example/l1/b", page("L1b", &[])),
    ]);
    let mut done = run(&site, "https://a.example/", 5);
    assert_eq!(done.verdicts, vec![Verdict::Recorded, Verdict::Recorded, Verdict::Aborted]);
    assert!(done.crawl.has_failed());
    assert!(done.crawl.is_finished());
    assert_eq!(done.crawl.next_fetch(), None);
    assert_eq!(done.crawl.results().len(), 2);
    assert_eq!(done.crawl.into_results(), None);
}

#[test]
fn transport_failure_on_the_seed_ends_the_crawl() {
    let done = run(&HashMap::new(), "not an address", 2);
    assert_eq!(done.fetched, vec![(String::from("not an address"), 0)]);
    assert_eq!(done.verdicts, vec![Verdict::Aborted]);
    assert_eq!(done.crawl.into_results(), None);
}

#[test]
fn unresolvable_link_does_not_stop_its_siblings() {
    let site = site_of(vec![
        ("https://a.example/", page("Seed", &["not a url \t", "/ok", "http://[broken", "/also"])),
        ("https://a.example/ok", page("Ok", &[])),
        ("https://a.example/also", page("Also", &[])),
    ]);
    let done = run(&site, "https://a.example/", 3);
    assert_eq!(titles(done.crawl.results()), vec!["Seed", "Ok", "Also"]);
    assert_eq!(done.crawl.visited().len(), 3);
}

#[test]
fn an_unfinished_crawl_has_no_result() {
    let mut crawl = Crawl::new("https://a.example/", 2);
    assert!(!crawl.is_finished());
    assert_eq!(crawl.max_depth(), 2);
    let first = crawl.next_fetch();
    assert_eq!(first, Some(Visit { url: String::from("https://a.example/"), depth: 0 }));
    assert!(!crawl.is_finished());
    assert_eq!(crawl.into_results(), None);
}

#[test]
fn the_awaited_visit_is_named_again_until_it_is_answered() {
    let mut crawl = Crawl::new("https://a.example/", 2);
    let first = crawl.next_fetch();
    let again = crawl.next_fetch();
    assert_eq!(first, again);
    assert_eq!(crawl.visited().len(), 1);
    let body = page("Seed", &["/one"]).body;
    assert_eq!(crawl.on_fetched(FetchOutcome::HttpStatus { code: 200, body }), Verdict::Recorded);
    assert_eq!(
        crawl.next_fetch(),
        Some(Visit { url: String::from("https://a.example/one"), depth: 1 })
    );
}

#[test]
fn an_answer_that_nothing_awaits_changes_nothing() {
    let mut crawl = Crawl::new("https://a.example/", 2);
    let body = page("Stray", &["/one"]).body;
    assert_eq!(
        crawl.on_fetched(FetchOutcome::HttpStatus { code: 200, body }),
        Verdict::Unexpected
    );
    assert_eq!(crawl.on_fetched(FetchOutcome::TransportFailure), Verdict::Unexpected);
    assert!(crawl.results().is_empty());
    assert!(!crawl.has_failed());
    assert_eq!(
        crawl.next_fetch(),
        Some(Visit { url: String::from("https://a.example/"), depth: 0 })
    );
}

#[test]
fn success_is_two_hundred_to_two_ninety_nine() {
    assert!(!is_success(0));
    assert!(!is_success(199));
    assert!(is_success(200));
    assert!(is_success(204));
    assert!(is_success(299));
    assert!(!is_success(300));
    assert!(!is_success(404));
    assert!(!is_success(u16::MAX));
}

#[test]
fn every_status_but_success_is_skipped() {
    for code in [100u16, 199, 301, 302, 403, 404, 500, 503] {
        let site = site_of(vec![
            ("https://a.example/", page("Seed", &["/odd"])),
            ("https://a.example/odd", status(code)),
        ]);
        let done = run(&site, "https://a.example/", 4);
        assert_eq!(done.verdicts, vec![Verdict::Recorded, Verdict::Skipped]);
        assert_eq!(titles(done.crawl.results()), vec!["Seed"]);
    }
}

#[test]
fn the_machine_agrees_with_the_plain_recursion() {
    let mut pages = Vec::new();
    let names: Vec<String> = (0..12).map(|i| format!("https://a.example/p{}", i)).collect();
    let mut owned = Vec::new();
    for i in 0..12usize {
        let links: Vec<String> = vec![
            format!("/p{}", (i * 5 + 1) % 13),
            format!("/p{}", (i * 3 + 2) % 12),
            format!("p{}", (i + 7) % 12),
            format!("/p{}", i),
        ];
        owned.push(links);
    }
    for i in 0..12usize {
        let links: Vec<&str> = owned[i].iter().map(|link| link.as_str()).collect();
        let found = if i == 5 { status(404) } else { page(&format!("P{}", i), &links) };
        pages.push((names[i].as_str(), found));
    }
    let site = site_of(pages);
    for max_depth in 0..8 {
        let done = run(&site, "https://a.example/p0", max_depth);
        let mut visited = Vec::new();
        let mut read = Vec::new();
        let whole = walk(&site, "https://a.example/p0", 0, max_depth, &mut visited, &mut read);
        assert_eq!(done.crawl.visited(), &visited);
        assert_eq!(urls(done.crawl.results()), read);
        assert_eq!(done.crawl.has_failed(), !whole);
    }
}
