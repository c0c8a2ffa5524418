//! The deterministic renderer: turns a finished adjacency structure into
//! flowchart source text. Body lines and link lines are each sorted before
//! joining, so the same graph always renders to the same text whatever
//! order its entries were discovered in.

use crate::graph::{edges_of, entry_edges, GraphModel, IssueGraph};
use crate::issue::{Issue, IssueModel};
use crate::text::{dec_int, i64_to_dec, lemma_lex_le_total_ordering, lex_le_fn, sort_strings};
use vstd::prelude::*;
use vstd::seq_lib::lemma_sorted_unique;
use vstd::string::StringExecFns;

verus! {

/// The body line one edge renders to: parent node, arrow, child node, each
/// node labelled with its title and number and tagged with its state class.
pub open spec fn body_line(p: IssueModel, c: IssueModel) -> Seq<char> {
    p.url + "[\""@ + p.title + " #"@ + dec_int(p.number) + "\"]:::"@ + p.state + " --> "@ + c.url
        + "[\""@ + c.title + " #"@ + dec_int(c.number) + "\"]:::"@ + c.state
}

/// The link line one edge renders to: it makes the child node clickable,
/// pointing at the child's canonical URL.
pub open spec fn link_line(c: IssueModel) -> Seq<char> {
    "click "@ + c.url + " href \""@ + c.url + "\" _blank"@
}

/// The body lines of a list of edges, in edge order.
pub open spec fn body_lines_of(es: Seq<(IssueModel, IssueModel)>) -> Seq<Seq<char>> {
    es.map_values(|e: (IssueModel, IssueModel)| body_line(e.0, e.1))
}

/// The link lines of a list of edges, in edge order.
pub open spec fn link_lines_of(es: Seq<(IssueModel, IssueModel)>) -> Seq<Seq<char>> {
    es.map_values(|e: (IssueModel, IssueModel)| link_line(e.1))
}

/// Lines joined with single newlines, no trailing newline.
pub open spec fn join_lines(ls: Seq<Seq<char>>) -> Seq<char>
    decreases ls.len(),
{
    if ls.len() == 0 {
        Seq::empty()
    } else if ls.len() == 1 {
        ls[0]
    } else {
        ls[0] + "\n"@ + join_lines(ls.drop_first())
    }
}

/// Lines in lexicographic order.
pub open spec fn sort_lines(ls: Seq<Seq<char>>) -> Seq<Seq<char>> {
    ls.sort_by(lex_le_fn())
}

/// The fixed opening of the document: the fenced code block, the diagram
/// declaration, and the two style classes keyed to the CLOSED and OPEN
/// states.
pub open spec fn mermaid_header() -> Seq<char> {
    "\n```mermaid\ngraph LR\n\nclassDef CLOSED fill:#8256d0,color:#FFFFFF,stroke-width:0px;\nclassDef OPEN fill:#347d39,color:#FFFFFF,stroke-width:0px;\n\n"@
}

/// The full rendered document for a graph: header, sorted body lines, a
/// blank line, sorted link lines, and the closing fence.
pub open spec fn mermaid_of(g: GraphModel) -> Seq<char> {
    mermaid_header() + join_lines(sort_lines(body_lines_of(edges_of(g)))) + "\n\n"@ + join_lines(
        sort_lines(link_lines_of(edges_of(g))),
    ) + "\n```"@
}

/// Appending one more line extends the joined text by a newline and that
/// line.
proof fn lemma_join_push(ls: Seq<Seq<char>>, l: Seq<char>)
    requires
        ls.len() > 0,
    ensures
        join_lines(ls.push(l)) == join_lines(ls) + "\n"@ + l,
    decreases ls.len(),
{
    if ls.len() == 1 {
        assert(ls.push(l).drop_first() =~= seq![l]);
        assert(join_lines(seq![l]) == l);
        assert(ls.push(l)[0] == ls[0]);
        assert(join_lines(ls.push(l)) == ls[0] + "\n"@ + l);
        assert(join_lines(ls) == ls[0]);
    } else {
        lemma_join_push(ls.drop_first(), l);
        assert(ls.push(l).drop_first() =~= ls.drop_first().push(l));
        assert(ls.push(l)[0] == ls[0]);
        assert(join_lines(ls.push(l)) == ls[0] + "\n"@ + (join_lines(ls.drop_first()) + "\n"@
            + l));
        assert(ls[0] + "\n"@ + (join_lines(ls.drop_first()) + "\n"@ + l) =~= (ls[0] + "\n"@
            + join_lines(ls.drop_first())) + "\n"@ + l);
    }
}

/// Joins the lines with single newlines, in order.
fn join_newline(v: &Vec<String>) -> (s: String)
    ensures
        s@ == join_lines(v@.map_values(|x: String| x@)),
{
    let ghost vv = v@.map_values(|x: String| x@);
    let n = v.len();
    if n == 0 {
        let s = String::new();
        proof {
            assert(vv.len() == 0);
        }
        return s;
    }
    let mut s = v[0].clone();
    let mut k: usize = 1;
    proof {
        assert(vv.take(1) =~= seq![vv[0]]);
        assert(join_lines(vv.take(1)) == vv[0]);
    }
    while k < n
        invariant
            n == v@.len(),
            1 <= k <= n,
            vv == v@.map_values(|x: String| x@),
            s@ == join_lines(vv.take(k as int)),
        decreases n - k,
    {
        s.append("\n");
        s.append(v[k].as_str());
        proof {
            lemma_join_push(vv.take(k as int), vv[k as int]);
            assert(vv.take(k as int + 1) =~= vv.take(k as int).push(vv[k as int]));
            assert(s@ =~= join_lines(vv.take(k as int)) + "\n"@ + vv[k as int]);
        }
        k += 1;
    }
    proof {
        assert(vv.take(n as int) =~= vv);
    }
    s
}

/// Renders the body line of the edge `parent -> child`.
fn render_body_line(parent: &Issue, child: &Issue) -> (s: String)
    ensures
        s@ == body_line(parent@, child@),
{
    let mut s = parent.url.clone();
    s.append("[\"");
    s.append(parent.title.as_str());
    s.append(" #");
    let pn = i64_to_dec(parent.number);
    s.append(pn.as_str());
    s.append("\"]:::");
    s.append(parent.state.as_str());
    s.append(" --> ");
    s.append(child.url.as_str());
    s.append("[\"");
    s.append(child.title.as_str());
    s.append(" #");
    let cn = i64_to_dec(child.number);
    s.append(cn.as_str());
    s.append("\"]:::");
    s.append(child.state.as_str());
    proof {
        assert(s@ =~= body_line(parent@, child@));
    }
    s
}

/// Renders the link line for `child`.
fn render_link_line(child: &Issue) -> (s: String)
    ensures
        s@ == link_line(child@),
{
    let mut s = String::from_str("click ");
    s.append(child.url.as_str());
    s.append(" href \"");
    s.append(child.url.as_str());
    s.append("\" _blank");
    proof {
        assert(s@ =~= link_line(child@));
    }
    s
}

/// A graph without edges renders to the fixed frame alone: the header with
/// both class declarations is still present while the body section and the
/// link section are empty.
pub proof fn lemma_render_no_edges(g: GraphModel)
    requires
        edges_of(g).len() == 0,
    ensures
        mermaid_of(g) == mermaid_header() + "\n\n"@ + "\n```"@,
{
    broadcast use vstd::seq_lib::group_to_multiset_ensures;

    lemma_lex_le_total_ordering();
    let bl = body_lines_of(edges_of(g));
    let ll = link_lines_of(edges_of(g));
    assert(bl.len() == 0);
    assert(ll.len() == 0);
    bl.lemma_sort_by_ensures(lex_le_fn());
    ll.lemma_sort_by_ensures(lex_le_fn());
    assert(sort_lines(bl).to_multiset().len() == bl.to_multiset().len());
    assert(sort_lines(bl).len() == 0);
    assert(sort_lines(ll).to_multiset().len() == ll.to_multiset().len());
    assert(sort_lines(ll).len() == 0);
    assert(join_lines(sort_lines(bl)) == Seq::<char>::empty());
    assert(join_lines(sort_lines(ll)) == Seq::<char>::empty());
    assert(mermaid_of(g) =~= mermaid_header() + "\n\n"@ + "\n```"@);
}

/// Sequences with the same elements have the same elements after mapping.
proof fn lemma_map_multiset<A, B>(s1: Seq<A>, s2: Seq<A>, f: spec_fn(A) -> B)
    requires
        s1.to_multiset() == s2.to_multiset(),
    ensures
        s1.map_values(f).to_multiset() == s2.map_values(f).to_multiset(),
    decreases s1.len(),
{
    broadcast use vstd::seq_lib::group_to_multiset_ensures;
    broadcast use vstd::multiset::group_multiset_axioms;

    if s1.len() == 0 {
        assert(s2.to_multiset().len() == 0);
        assert(s2.len() == 0);
        assert(s1.map_values(f) =~= Seq::<B>::empty());
        assert(s2.map_values(f) =~= Seq::<B>::empty());
    } else {
        let x = s1.last();
        assert(s1 =~= s1.drop_last().push(x));
        assert(s1.contains(x));
        assert(s1.to_multiset().count(x) > 0);
        assert(s2.contains(x));
        let j = choose|j: int| 0 <= j < s2.len() && s2[j] == x;
        assert(s1.drop_last().to_multiset() =~= s1.to_multiset().remove(x)) by {
            assert(s1.drop_last() =~= s1.remove(s1.len() - 1));
        }
        assert(s2.remove(j).to_multiset() =~= s2.to_multiset().remove(x));
        lemma_map_multiset(s1.drop_last(), s2.remove(j), f);
        crate::text::lemma_map_values_push(s1.drop_last(), x, f);
        assert(s1.map_values(f).to_multiset() == s1.drop_last().map_values(f).to_multiset().insert(
            f(x),
        ));
        assert(s2.remove(j).map_values(f) =~= s2.map_values(f).remove(j));
        assert(s2.map_values(f)[j] == f(x));
        assert(s2.map_values(f).remove(j).to_multiset() =~= s2.map_values(f).to_multiset().remove(
            f(x),
        ));
        assert(s2.map_values(f).to_multiset().count(f(x)) > 0) by {
            assert(s2.map_values(f).contains(f(x)));
        }
        assert(s2.map_values(f).to_multiset().remove(f(x)).insert(f(x)) =~= s2.map_values(
            f,
        ).to_multiset());
    }
}

/// Rendering is order-independent: two graphs built from the same edges,
/// in whatever entry and insertion order, render to identical text.
pub proof fn lemma_render_order_independent(g1: GraphModel, g2: GraphModel)
    requires
        edges_of(g1).to_multiset() == edges_of(g2).to_multiset(),
    ensures
        mermaid_of(g1) == mermaid_of(g2),
{
    lemma_lex_le_total_ordering();
    lemma_map_multiset(
        edges_of(g1),
        edges_of(g2),
        |e: (IssueModel, IssueModel)| body_line(e.0, e.1),
    );
    lemma_map_multiset(edges_of(g1), edges_of(g2), |e: (IssueModel, IssueModel)| link_line(e.1));
    let b1 = body_lines_of(edges_of(g1));
    let b2 = body_lines_of(edges_of(g2));
    let l1 = link_lines_of(edges_of(g1));
    let l2 = link_lines_of(edges_of(g2));
    b1.lemma_sort_by_ensures(lex_le_fn());
    b2.lemma_sort_by_ensures(lex_le_fn());
    l1.lemma_sort_by_ensures(lex_le_fn());
    l2.lemma_sort_by_ensures(lex_le_fn());
    lemma_sorted_unique(b1.sort_by(lex_le_fn()), b2.sort_by(lex_le_fn()), lex_le_fn());
    lemma_sorted_unique(l1.sort_by(lex_le_fn()), l2.sort_by(lex_le_fn()), lex_le_fn());
    assert(sort_lines(b1) == sort_lines(b2));
    assert(sort_lines(l1) == sort_lines(l2));
}

/// Renders the finished graph as flowchart source text, wrapped in a
/// fenced code block: the fixed header, every edge's body line and every
/// edge's link line, both sections independently sorted so that the output
/// is byte-identical however the graph's entries are ordered.
#[verifier::rlimit(50)]
pub fn build_mermaid(issue_map: IssueGraph) -> (s: String)
    ensures
        s@ == mermaid_of(issue_map@),
{
    let ghost g = issue_map@;
    let mut body: Vec<String> = Vec::new();
    let mut links: Vec<String> = Vec::new();
    let ghost mut es = Seq::<(IssueModel, IssueModel)>::empty();
    let n = issue_map.entries.len();
    let mut i: usize = 0;
    proof {
        assert(g.take(0) =~= Seq::<(IssueModel, Seq<IssueModel>)>::empty());
        assert(es == edges_of(g.take(0)));
        assert(body@.map_values(|x: String| x@) =~= body_lines_of(es));
        assert(links@.map_values(|x: String| x@) =~= link_lines_of(es));
    }
    while i < n
        invariant
            n == issue_map.entries@.len(),
            i <= n,
            g == issue_map@,
            es == edges_of(g.take(i as int)),
            body@.map_values(|x: String| x@) == body_lines_of(es),
            links@.map_values(|x: String| x@) == link_lines_of(es),
        decreases n - i,
    {
        let m = issue_map.entries[i].1.len();
        let mut j: usize = 0;
        proof {
            assert(g[i as int].1.take(0) =~= Seq::<IssueModel>::empty());
            assert(g[i as int].1.take(0).map_values(|c: IssueModel| (g[i as int].0, c)) =~= Seq::<
                (IssueModel, IssueModel),
            >::empty());
            assert(es + g[i as int].1.take(0).map_values(|c: IssueModel| (g[i as int].0, c))
                =~= es);
        }
        let ghost es_entry = es;
        while j < m
            invariant
                n == issue_map.entries@.len(),
                i < n,
                g == issue_map@,
                m == g[i as int].1.len(),
                j <= m,
                es_entry == edges_of(g.take(i as int)),
                es == es_entry + g[i as int].1.take(j as int).map_values(
                    |c: IssueModel| (g[i as int].0, c),
                ),
                body@.map_values(|x: String| x@) == body_lines_of(es),
                links@.map_values(|x: String| x@) == link_lines_of(es),
            decreases m - j,
        {
            let entry = &issue_map.entries[i];
            proof {
                assert(g[i as int].0 == entry.0@);
                assert(g[i as int].1[j as int] == entry.1@[j as int]@);
            }
            let bl = render_body_line(&entry.0, &entry.1[j]);
            let ll = render_link_line(&entry.1[j]);
            let ghost b0 = body@;
            let ghost l0 = links@;
            let ghost es0 = es;
            body.push(bl);
            links.push(ll);
            proof {
                let e = (g[i as int].0, g[i as int].1[j as int]);
                es = es0.push(e);
                assert(bl@ == body_line(e.0, e.1));
                assert(ll@ == link_line(e.1));
                crate::text::lemma_map_values_push(b0, bl, |x: String| x@);
                crate::text::lemma_map_values_push(l0, ll, |x: String| x@);
                crate::text::lemma_map_values_push(
                    es0,
                    e,
                    |q: (IssueModel, IssueModel)| body_line(q.0, q.1),
                );
                crate::text::lemma_map_values_push(
                    es0,
                    e,
                    |q: (IssueModel, IssueModel)| link_line(q.1),
                );
                assert(body@.map_values(|x: String| x@) =~= body_lines_of(es));
                assert(links@.map_values(|x: String| x@) =~= link_lines_of(es));
                assert(g[i as int].1.take(j as int + 1) =~= g[i as int].1.take(j as int).push(
                    g[i as int].1[j as int],
                ));
                crate::text::lemma_map_values_push(
                    g[i as int].1.take(j as int),
                    g[i as int].1[j as int],
                    |c: IssueModel| (g[i as int].0, c),
                );
                assert(es_entry + g[i as int].1.take(j as int + 1).map_values(
                    |c: IssueModel| (g[i as int].0, c),
                ) =~= es);
            }
            j += 1;
        }
        proof {
            assert(g[i as int].1.take(m as int) =~= g[i as int].1);
            assert(g.take(i as int + 1).drop_last() =~= g.take(i as int));
            assert(g.take(i as int + 1).last() == g[i as int]);
            assert(edges_of(g.take(i as int + 1)) == edges_of(g.take(i as int)) + entry_edges(
                g[i as int],
            ));
            assert(es =~= edges_of(g.take(i as int + 1)));
        }
        i += 1;
    }
    proof {
        assert(g.take(n as int) =~= g);
        assert(es == edges_of(g));
    }
    let body_sorted = sort_strings(body);
    let links_sorted = sort_strings(links);
    let body_text = join_newline(&body_sorted);
    let links_text = join_newline(&links_sorted);
    let mut s = String::from_str(
        "\n```mermaid\ngraph LR\n\nclassDef CLOSED fill:#8256d0,color:#FFFFFF,stroke-width:0px;\nclassDef OPEN fill:#347d39,color:#FFFFFF,stroke-width:0px;\n\n",
    );
    s.append(body_text.as_str());
    s.append("\n\n");
    s.append(links_text.as_str());
    s.append("\n```");
    proof {
        assert(s@ =~= mermaid_of(g));
    }
    s
}

} // verus!
