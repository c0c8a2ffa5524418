use gid::crawl::{Crawler, FetchRequest};
use gid::issue::Issue;
use gid::render::build_mermaid;

fn issue(number: i64, title: &str, state: &str, url: &str) -> Issue {
    Issue {
        number,
        title: String::from(title),
        state: String::from(state),
        url: String::from(url),
    }
}

fn url(n: i64) -> String {
    format!("https://github.com/o/r/issues/{}", n)
}

/// Serves the canned tracked-issue relation of one test: issue number to
/// (issue, children). Panics on an unexpected fetch.
fn serve(relation: &[(i64, &str, Vec<i64>)], req: &FetchRequest) -> (Issue, Vec<Issue>) {
    for (n, state, children) in relation {
        if *n == req.number {
            let parent = issue(*n, &format!("I{}", n), state, &url(*n));
            let kids = children
                .iter()
                .map(|c| issue(*c, &format!("I{}", c), "OPEN", &url(*c)))
                .collect();
            return (parent, kids);
        }
    }
    panic!("unexpected fetch of issue {}", req.number);
}

fn drive(relation: &[(i64, &str, Vec<i64>)], root: i64) -> (Vec<i64>, gid::graph::IssueGraph) {
    let mut crawler = Crawler::new(String::from("o"), String::from("r"), root);
    let mut fetched: Vec<i64> = Vec::new();
    let mut rounds: usize = 0;
    while let Some(req) = crawler.next_request() {
        rounds += 1;
        assert!(rounds <= 50, "crawl did not terminate");
        fetched.push(req.number);
        let (parent, children) = serve(relation, &req);
        for c in &children {
            assert!(c.location_derivable());
        }
        crawler.handle_response(&parent, &children);
    }
    assert!(crawler.is_done());
    (fetched, crawler.into_graph())
}

#[test]
fn diamond_fetches_shared_child_once() {
    // R(1) tracks A(2) and B(3); both A and B track C(4).
    let relation = [
        (1, "OPEN", vec![2, 3]),
        (2, "OPEN", vec![4]),
        (3, "OPEN", vec![4]),
        (4, "OPEN", vec![]),
    ];
    let (fetched, graph) = drive(&relation, 1);
    // every issue expanded exactly once
    assert_eq!(fetched.len(), 4);
    let mut sorted = fetched.clone();
    sorted.sort();
    assert_eq!(sorted, vec![1, 2, 3, 4]);
    assert_eq!(fetched.iter().filter(|n| **n == 4).count(), 1);
    // edges (R->A), (R->B), (A->C), (B->C) are all present
    let out = build_mermaid(graph);
    let arrow = |p: i64, c: i64| {
        format!(
            "{}[\"I{} #{}\"]:::OPEN --> {}[\"I{} #{}\"]:::OPEN",
            url(p),
            p,
            p,
            url(c),
            c,
            c
        )
    };
    assert!(out.contains(&arrow(1, 2)));
    assert!(out.contains(&arrow(1, 3)));
    assert!(out.contains(&arrow(2, 4)));
    assert!(out.contains(&arrow(3, 4)));
    // C appears as a child exactly twice
    let child_c = format!("--> {}[\"I4 #4\"]:::OPEN", url(4));
    assert_eq!(out.matches(&child_c).count(), 2);
}

#[test]
fn cycle_terminates_visiting_each_identity_once() {
    // R(1) tracks C(2); C (incorrectly) tracks R back.
    let relation = [(1, "OPEN", vec![2]), (2, "OPEN", vec![1])];
    let (fetched, graph) = drive(&relation, 1);
    assert_eq!(fetched.len(), 2);
    let mut sorted = fetched.clone();
    sorted.sort();
    assert_eq!(sorted, vec![1, 2]);
    // both edges were still recorded
    assert_eq!(graph.entry_count(), 2);
}

#[test]
fn cross_repository_child_fetched_from_its_own_repository() {
    let mut crawler = Crawler::new(String::from("o"), String::from("r"), 1);
    let first = crawler.next_request().unwrap();
    assert_eq!(first.owner, "o");
    assert_eq!(first.repository, "r");
    assert_eq!(first.number, 1);
    let parent = issue(1, "Root", "OPEN", "https://github.com/o/r/issues/1");
    let child = issue(7, "Elsewhere", "OPEN", "https://github.com/other/proj/issues/7");
    crawler.handle_response(&parent, &vec![child]);
    let req = crawler.next_request().unwrap();
    assert_eq!(req.owner, "other");
    assert_eq!(req.repository, "proj");
    assert_eq!(req.number, 7);
    assert!(crawler.next_request().is_none());
}

#[test]
fn no_children_leaves_graph_empty() {
    let relation = [(1, "OPEN", vec![])];
    let (fetched, graph) = drive(&relation, 1);
    assert_eq!(fetched, vec![1]);
    assert_eq!(graph.entry_count(), 0);
    let out = build_mermaid(graph);
    assert!(out.contains("classDef CLOSED"));
    assert!(!out.contains("-->"));
    assert!(!out.contains("click "));
}

#[test]
fn self_tracking_issue_is_not_refetched() {
    let relation = [(1, "OPEN", vec![1])];
    let (fetched, graph) = drive(&relation, 1);
    assert_eq!(fetched, vec![1]);
    assert_eq!(graph.entry_count(), 1);
}

#[test]
fn issue_identity_and_location() {
    let i = issue(28, "T", "OPEN", "https://github.com/k-nasa/gid/issues/28");
    assert_eq!(i.id(), "https://github.com/k-nasa/gid/issues/28");
    assert!(i.location_derivable());
    assert_eq!(i.owner(), "k-nasa");
    assert_eq!(i.repo(), "gid");
}

#[test]
fn short_url_location_not_derivable() {
    let i = issue(1, "T", "OPEN", "no-slashes-here");
    assert!(!i.location_derivable());
}
