use gid::graph::IssueGraph;
use gid::issue::Issue;
use gid::render::build_mermaid;

fn issue(number: i64, title: &str, state: &str, url: &str) -> Issue {
    Issue {
        number,
        title: String::from(title),
        state: String::from(state),
        url: String::from(url),
    }
}

const HEADER: &str = "\n```mermaid\ngraph LR\n\nclassDef CLOSED fill:#8256d0,color:#FFFFFF,stroke-width:0px;\nclassDef OPEN fill:#347d39,color:#FFFFFF,stroke-width:0px;\n\n";

#[test]
fn empty_graph_renders_frame_alone() {
    let g = IssueGraph::new();
    let out = build_mermaid(g);
    let expected = format!("{}{}{}", HEADER, "\n\n", "\n```");
    assert_eq!(out, expected);
    assert!(out.contains("classDef CLOSED fill:#8256d0"));
    assert!(out.contains("classDef OPEN fill:#347d39"));
}

#[test]
fn single_edge_concrete_output() {
    let root = issue(1, "Root", "OPEN", "https://github.com/o/r/issues/1");
    let child = issue(2, "Child", "CLOSED", "https://github.com/o/r/issues/2");
    let mut g = IssueGraph::new();
    g.add_edge(&root, &child);
    let out = build_mermaid(g);
    let body = "https://github.com/o/r/issues/1[\"Root #1\"]:::OPEN --> https://github.com/o/r/issues/2[\"Child #2\"]:::CLOSED";
    let link = "click https://github.com/o/r/issues/2 href \"https://github.com/o/r/issues/2\" _blank";
    assert!(out.contains(body));
    assert!(out.contains(link));
    let expected = format!("{}{}\n\n{}\n```", HEADER, body, link);
    assert_eq!(out, expected);
}

#[test]
fn rendering_is_order_independent() {
    let a = issue(1, "A", "OPEN", "https://github.com/o/r/issues/1");
    let b = issue(2, "B", "CLOSED", "https://github.com/o/r/issues/2");
    let c = issue(3, "C", "OPEN", "https://github.com/o/r/issues/3");
    let d = issue(4, "D", "OTHER", "https://github.com/o/r/issues/4");

    let mut g1 = IssueGraph::new();
    g1.add_edge(&a, &b);
    g1.add_edge(&a, &c);
    g1.add_edge(&c, &d);

    let mut g2 = IssueGraph::new();
    g2.add_edge(&c, &d);
    g2.add_edge(&a, &c);
    g2.add_edge(&a, &b);

    assert_eq!(build_mermaid(g1), build_mermaid(g2));
}

#[test]
fn rendering_is_idempotent() {
    let a = issue(1, "A", "OPEN", "https://github.com/o/r/issues/1");
    let b = issue(2, "B", "CLOSED", "https://github.com/o/r/issues/2");
    let mut g1 = IssueGraph::new();
    g1.add_edge(&a, &b);
    let mut g2 = IssueGraph::new();
    g2.add_edge(&a, &b);
    assert_eq!(build_mermaid(g1), build_mermaid(g2));
}

#[test]
fn body_lines_come_out_sorted() {
    let p = issue(1, "P", "OPEN", "https://github.com/o/r/issues/1");
    let za = issue(2, "zz", "OPEN", "https://github.com/o/r/issues/2");
    let ab = issue(3, "aa", "OPEN", "https://github.com/o/r/issues/3");
    let mut g = IssueGraph::new();
    // insertion order deliberately not the sorted order of the lines
    g.add_edge(&za, &p);
    g.add_edge(&ab, &p);
    let out = build_mermaid(g);
    let line_from_za = "https://github.com/o/r/issues/2[\"zz #2\"]:::OPEN --> https://github.com/o/r/issues/1[\"P #1\"]:::OPEN";
    let line_from_ab = "https://github.com/o/r/issues/3[\"aa #3\"]:::OPEN --> https://github.com/o/r/issues/1[\"P #1\"]:::OPEN";
    let i_za = out.find(line_from_za).unwrap();
    let i_ab = out.find(line_from_ab).unwrap();
    // ".../issues/2..." sorts before ".../issues/3..."
    assert!(i_za < i_ab);
}

#[test]
fn duplicate_edge_is_recorded_once() {
    let p = issue(1, "P", "OPEN", "https://github.com/o/r/issues/1");
    let c = issue(2, "C", "OPEN", "https://github.com/o/r/issues/2");
    let mut g = IssueGraph::new();
    g.add_edge(&p, &c);
    g.add_edge(&p, &c);
    assert_eq!(g.entry_count(), 1);
    let out = build_mermaid(g);
    let body = "https://github.com/o/r/issues/1[\"P #1\"]:::OPEN --> https://github.com/o/r/issues/2[\"C #2\"]:::OPEN";
    let first = out.find(body).unwrap();
    assert_eq!(out.rfind(body).unwrap(), first);
}

#[test]
fn same_parent_merges_into_one_entry() {
    let p = issue(1, "P", "OPEN", "https://github.com/o/r/issues/1");
    let c1 = issue(2, "C1", "OPEN", "https://github.com/o/r/issues/2");
    let c2 = issue(3, "C2", "OPEN", "https://github.com/o/r/issues/3");
    let mut g = IssueGraph::new();
    g.add_edge(&p, &c1);
    g.add_edge(&p, &c2);
    assert_eq!(g.entry_count(), 1);
    assert_eq!(g.entries[0].1.len(), 2);
}

#[test]
fn titles_are_not_escaped() {
    // Characters that are structurally significant in the output format are
    // passed through verbatim; sanitising them is out of scope.
    let p = issue(1, "A\"]B", "OPEN", "https://github.com/o/r/issues/1");
    let c = issue(2, "C[\"D", "CLOSED", "https://github.com/o/r/issues/2");
    let mut g = IssueGraph::new();
    g.add_edge(&p, &c);
    let out = build_mermaid(g);
    assert!(out.contains("[\"A\"]B #1\"]:::OPEN"));
    assert!(out.contains("[\"C[\"D #2\"]:::CLOSED"));
}

#[test]
fn negative_and_large_numbers_render() {
    let p = issue(-7, "Neg", "OPEN", "https://github.com/o/r/issues/1");
    let c = issue(9223372036854775807, "Big", "CLOSED", "https://github.com/o/r/issues/2");
    let mut g = IssueGraph::new();
    g.add_edge(&p, &c);
    let out = build_mermaid(g);
    assert!(out.contains("[\"Neg #-7\"]:::OPEN"));
    assert!(out.contains("[\"Big #9223372036854775807\"]:::CLOSED"));
}
