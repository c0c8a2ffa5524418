//! The adjacency structure the crawl accumulates: a mapping from a parent
//! issue to the ordered sequence of its directly tracked children, keyed by
//! issue identity, with duplicate keys merged and duplicate edges dropped.

use crate::issue::{id_of, Issue, IssueModel};
use crate::text::str_eq;
use vstd::prelude::*;

verus! {

/// Model of the adjacency structure: entries in insertion order.
pub type GraphModel = Seq<(IssueModel, Seq<IssueModel>)>;

/// Index of the first entry whose key has identity `id`, or `-1`.
pub open spec fn find_entry(g: GraphModel, id: Seq<char>) -> int
    decreases g.len(),
{
    if g.len() == 0 {
        -1
    } else if id_of(g[0].0) == id {
        0
    } else {
        let r = find_entry(g.drop_first(), id);
        if r < 0 {
            -1
        } else {
            r + 1
        }
    }
}

/// Index of the first child with identity `id`, or `-1`.
pub open spec fn find_child(cs: Seq<IssueModel>, id: Seq<char>) -> int
    decreases cs.len(),
{
    if cs.len() == 0 {
        -1
    } else if id_of(cs[0]) == id {
        0
    } else {
        let r = find_child(cs.drop_first(), id);
        if r < 0 {
            -1
        } else {
            r + 1
        }
    }
}

/// A child list after recording `c`: unchanged when a child with the same
/// identity is already present, else extended at the end.
pub open spec fn add_child_model(cs: Seq<IssueModel>, c: IssueModel) -> Seq<IssueModel> {
    if find_child(cs, id_of(c)) >= 0 {
        cs
    } else {
        cs.push(c)
    }
}

/// The graph after recording the edge `p -> c`: merged into the entry keyed
/// by `p`'s identity when one exists, else appended as a new entry.
pub open spec fn add_edge_model(g: GraphModel, p: IssueModel, c: IssueModel) -> GraphModel {
    let i = find_entry(g, id_of(p));
    if i < 0 {
        g.push((p, seq![c]))
    } else {
        g.update(i, (g[i].0, add_child_model(g[i].1, c)))
    }
}

pub proof fn lemma_find_entry_spec(g: GraphModel, id: Seq<char>)
    ensures
        find_entry(g, id) < 0 ==> forall|j: int| 0 <= j < g.len() ==> id_of(g[j].0) != id,
        find_entry(g, id) >= 0 ==> {
            &&& find_entry(g, id) < g.len()
            &&& id_of(g[find_entry(g, id)].0) == id
        },
    decreases g.len(),
{
    if g.len() > 0 && id_of(g[0].0) != id {
        lemma_find_entry_spec(g.drop_first(), id);
        assert forall|j: int| 1 <= j < g.len() implies g.drop_first()[j - 1] == g[j] by {}
    }
}

pub proof fn lemma_find_child_spec(cs: Seq<IssueModel>, id: Seq<char>)
    ensures
        find_child(cs, id) < 0 ==> forall|j: int| 0 <= j < cs.len() ==> id_of(cs[j]) != id,
        find_child(cs, id) >= 0 ==> {
            &&& find_child(cs, id) < cs.len()
            &&& id_of(cs[find_child(cs, id)]) == id
        },
    decreases cs.len(),
{
    if cs.len() > 0 && id_of(cs[0]) != id {
        lemma_find_child_spec(cs.drop_first(), id);
        assert forall|j: int| 1 <= j < cs.len() implies cs.drop_first()[j - 1] == cs[j] by {}
    }
}

/// No two children of one entry share an identity: an edge is recorded at
/// most once.
pub open spec fn children_unique(cs: Seq<IssueModel>) -> bool {
    forall|i: int, j: int| 0 <= i < j < cs.len() ==> id_of(cs[i]) != id_of(cs[j])
}

/// The edges contributed by one entry, in child order.
pub open spec fn entry_edges(e: (IssueModel, Seq<IssueModel>)) -> Seq<(IssueModel, IssueModel)> {
    e.1.map_values(|c: IssueModel| (e.0, c))
}

/// All edges of the graph, entry by entry.
pub open spec fn edges_of(g: GraphModel) -> Seq<(IssueModel, IssueModel)>
    decreases g.len(),
{
    if g.len() == 0 {
        Seq::empty()
    } else {
        edges_of(g.drop_last()) + entry_edges(g.last())
    }
}

/// The adjacency mapping from a parent issue to its directly tracked
/// children. A snapshot for one crawl; handed whole to the renderer.
pub struct IssueGraph {
    pub entries: Vec<(Issue, Vec<Issue>)>,
}

impl View for IssueGraph {
    type V = GraphModel;

    open spec fn view(&self) -> GraphModel {
        self.entries@.map_values(
            |e: (Issue, Vec<Issue>)| (e.0@, e.1@.map_values(|c: Issue| c@)),
        )
    }
}

/// Whether some child in `cs` has the identity `url`.
fn child_present(cs: &Vec<Issue>, url: &str) -> (r: bool)
    ensures
        r == (find_child(cs@.map_values(|c: Issue| c@), url@) >= 0),
{
    let ghost csm = cs@.map_values(|c: Issue| c@);
    proof {
        lemma_find_child_spec(csm, url@);
    }
    let m = cs.len();
    let mut k: usize = 0;
    while k < m
        invariant
            m == cs@.len(),
            k <= m,
            csm == cs@.map_values(|c: Issue| c@),
            forall|j: int| 0 <= j < k ==> id_of(csm[j]) != url@,
        decreases m - k,
    {
        if str_eq(cs[k].url.as_str(), url) {
            proof {
                assert(id_of(csm[k as int]) == url@);
                lemma_find_child_spec(csm, url@);
            }
            return true;
        }
        k += 1;
    }
    proof {
        lemma_find_child_spec(csm, url@);
    }
    false
}

impl IssueGraph {
    /// Keys are unique by identity and no entry records an edge twice.
    pub open spec fn wf(&self) -> bool {
        &&& forall|i: int, j: int|
            0 <= i < j < self@.len() ==> id_of(self@[i].0) != id_of(self@[j].0)
        &&& forall|k: int| 0 <= k < self@.len() ==> children_unique(#[trigger] self@[k].1)
    }

    /// The empty graph.
    pub fn new() -> (g: IssueGraph)
        ensures
            g@ =~= Seq::<(IssueModel, Seq<IssueModel>)>::empty(),
            g.wf(),
    {
        IssueGraph { entries: Vec::new() }
    }

    /// How many parent entries the graph holds.
    pub fn entry_count(&self) -> (n: usize)
        ensures
            n == self@.len(),
    {
        self.entries.len()
    }

    /// Records the edge `parent -> child`, merging into an existing entry
    /// for the parent's identity and dropping the edge when it is already
    /// present.
    pub fn add_edge(&mut self, parent: &Issue, child: &Issue)
        requires
            old(self).wf(),
        ensures
            final(self).wf(),
            final(self)@ == add_edge_model(old(self)@, parent@, child@),
    {
        let ghost g0 = self@;
        let n = self.entries.len();
        let mut i: usize = 0;
        while i < n
            invariant
                n == self.entries@.len(),
                i <= n,
                self@ == g0,
                g0 == old(self)@,
                self.wf(),
                forall|j: int| 0 <= j < i ==> id_of(g0[j].0) != parent@.url,
            decreases n - i,
        {
            if str_eq(self.entries[i].0.url.as_str(), parent.url.as_str()) {
                proof {
                    assert(id_of(g0[i as int].0) == parent@.url);
                    lemma_find_entry_spec(g0, parent@.url);
                    // first match and key uniqueness pin the spec index
                    assert(find_entry(g0, parent@.url) == i);
                }
                let mut pair = self.entries.remove(i);
                let ghost cs0 = pair.1@.map_values(|c: Issue| c@);
                proof {
                    assert(cs0 == g0[i as int].1);
                    assert(children_unique(g0[i as int].1));
                }
                let present = child_present(&pair.1, child.url.as_str());
                if !present {
                    pair.1.push(child.duplicate());
                    proof {
                        assert(pair.1@.map_values(|c: Issue| c@) =~= cs0.push(child@));
                    }
                }
                self.entries.insert(i, pair);
                proof {
                    let e = (g0[i as int].0, add_child_model(g0[i as int].1, child@));
                    assert(pair.0@ == g0[i as int].0);
                    assert(pair.1@.map_values(|c: Issue| c@) == add_child_model(
                        g0[i as int].1,
                        child@,
                    ));
                    assert(self@ =~= g0.update(i as int, e));
                    assert(g0 == old(self)@);
                    assert(find_entry(old(self)@, id_of(parent@)) == i);
                    assert(add_edge_model(old(self)@, parent@, child@) == g0.update(
                        i as int,
                        e,
                    ));
                    assert(self@ == add_edge_model(g0, parent@, child@));
                    let v = self@;
                    assert forall|x: int, y: int| 0 <= x < y < v.len() implies id_of(v[x].0)
                        != id_of(v[y].0) by {
                        assert(v[x].0 == g0[x].0);
                        assert(v[y].0 == g0[y].0);
                    }
                    assert forall|x: int| 0 <= x < v.len() implies children_unique(
                        #[trigger] v[x].1,
                    ) by {
                        if x != i {
                            assert(v[x].1 == g0[x].1);
                        } else {
                            assert(children_unique(cs0));
                            if !present {
                                lemma_find_child_spec(cs0, child@.url);
                                assert(v[x].1 == cs0.push(child@));
                                assert forall|a: int, b: int|
                                    0 <= a < b < cs0.push(child@).len() implies id_of(
                                    cs0.push(child@)[a],
                                ) != id_of(cs0.push(child@)[b]) by {
                                    if b < cs0.len() {
                                        assert(id_of(cs0[a]) != id_of(cs0[b]));
                                    } else {
                                        assert(id_of(cs0[a]) != child@.url);
                                    }
                                }
                            }
                        }
                    }
                }
                return ;
            }
            i += 1;
        }
        proof {
            lemma_find_entry_spec(g0, parent@.url);
            assert(find_entry(g0, parent@.url) < 0);
        }
        let mut children: Vec<Issue> = Vec::new();
        children.push(child.duplicate());
        self.entries.push((parent.duplicate(), children));
        proof {
            assert(children@.map_values(|c: Issue| c@) =~= seq![child@]);
            assert(self@ =~= g0.push((parent@, seq![child@])));
            let v = self@;
            assert forall|x: int, y: int| 0 <= x < y < v.len() implies id_of(v[x].0) != id_of(
                v[y].0,
            ) by {
                if y < g0.len() {
                    assert(v[x].0 == g0[x].0);
                    assert(v[y].0 == g0[y].0);
                } else {
                    assert(v[x].0 == g0[x].0);
                    assert(id_of(g0[x].0) != parent@.url);
                }
            }
            assert forall|x: int| 0 <= x < v.len() implies children_unique(#[trigger] v[x].1) by {
                if x < g0.len() {
                    assert(v[x].1 == g0[x].1);
                } else {
                    assert(v[x].1 == seq![child@]);
                }
            }
        }
    }
}

} // verus!
