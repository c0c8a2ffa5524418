//! The crawler's bookkeeping, as a step function from state and fetched
//! response to next state: a work queue of fetch requests, a visited set
//! keyed by issue identity, and the growing adjacency structure.
//!
//! The driver loop around it performs one fetch at a time: it pops a
//! request with `next_request`, carries it out, and hands the translated
//! response back through `handle_response`. Everything the crawl decides —
//! which edges are recorded, which children are scheduled, and where their
//! fetches are addressed — is decided here.

use crate::graph::{add_edge_model, GraphModel, IssueGraph};
use crate::issue::{id_of, url_owner, url_repo, Issue, IssueModel};
use crate::text::str_eq;
use vstd::prelude::*;

verus! {

/// One unit of work: fetch this issue and its direct children.
pub struct FetchRequest {
    pub owner: String,
    pub repository: String,
    pub number: i64,
}

/// Mathematical model of a fetch request.
pub ghost struct RequestModel {
    pub owner: Seq<char>,
    pub repository: Seq<char>,
    pub number: int,
}

impl View for FetchRequest {
    type V = RequestModel;

    open spec fn view(&self) -> RequestModel {
        RequestModel {
            owner: self.owner@,
            repository: self.repository@,
            number: self.number as int,
        }
    }
}

/// The fetch request a child issue gives rise to: owner and repository are
/// derived from the child's own URL, never inherited from its parent.
pub open spec fn request_of(c: IssueModel) -> RequestModel {
    RequestModel { owner: url_owner(c.url), repository: url_repo(c.url), number: c.number }
}

/// Mathematical model of the crawler state.
pub ghost struct CrawlerModel {
    pub graph: GraphModel,
    pub visited: Seq<Seq<char>>,
    pub pending: Seq<RequestModel>,
}

/// Whether `id` is among the visited identities.
pub open spec fn contains_id(visited: Seq<Seq<char>>, id: Seq<char>) -> bool {
    exists|j: int| 0 <= j < visited.len() && visited[j] == id
}

/// No identity occurs twice.
pub open spec fn ids_unique(visited: Seq<Seq<char>>) -> bool {
    forall|i: int, j: int| 0 <= i < j < visited.len() ==> visited[i] != visited[j]
}

/// The state after recording one child: the edge `parent -> c` goes into
/// the graph; if `c`'s identity is new it is marked visited and a fetch of
/// `c` is scheduled, otherwise `c`'s subtree is not expanded again.
pub open spec fn step_child(st: CrawlerModel, parent: IssueModel, c: IssueModel) -> CrawlerModel {
    let g1 = add_edge_model(st.graph, parent, c);
    if contains_id(st.visited, id_of(c)) {
        CrawlerModel { graph: g1, visited: st.visited, pending: st.pending }
    } else {
        CrawlerModel {
            graph: g1,
            visited: st.visited.push(id_of(c)),
            pending: st.pending.push(request_of(c)),
        }
    }
}

/// The state after recording a list of children, first to last.
pub open spec fn step_children(
    st: CrawlerModel,
    parent: IssueModel,
    cs: Seq<IssueModel>,
) -> CrawlerModel
    decreases cs.len(),
{
    if cs.len() == 0 {
        st
    } else {
        step_children(step_child(st, parent, cs[0]), parent, cs.drop_first())
    }
}

/// The state after one fetched response: the fetched issue itself counts as
/// visited (so a cycle back to it schedules nothing), then its children are
/// recorded in order.
pub open spec fn step_response(
    st: CrawlerModel,
    parent: IssueModel,
    cs: Seq<IssueModel>,
) -> CrawlerModel {
    let st1 = if contains_id(st.visited, id_of(parent)) {
        st
    } else {
        CrawlerModel {
            graph: st.graph,
            visited: st.visited.push(id_of(parent)),
            pending: st.pending,
        }
    };
    step_children(st1, parent, cs)
}

proof fn lemma_step_children_pending(st: CrawlerModel, parent: IssueModel, cs: Seq<IssueModel>)
    ensures
        step_children(st, parent, cs).pending.len() >= st.pending.len(),
        forall|k: int|
            0 <= k < st.pending.len() ==> #[trigger] step_children(st, parent, cs).pending[k]
                == st.pending[k],
        forall|k: int|
            st.pending.len() <= k < step_children(st, parent, cs).pending.len() ==> exists|j: int|
                0 <= j < cs.len() && #[trigger] step_children(st, parent, cs).pending[k]
                    == request_of(#[trigger] cs[j]),
    decreases cs.len(),
{
    if cs.len() > 0 {
        let st1 = step_child(st, parent, cs[0]);
        let stf = step_children(st, parent, cs);
        lemma_step_children_pending(st1, parent, cs.drop_first());
        assert(stf == step_children(st1, parent, cs.drop_first()));
        assert forall|k: int| st.pending.len() <= k < stf.pending.len() implies exists|j: int|
            0 <= j < cs.len() && #[trigger] stf.pending[k] == request_of(#[trigger] cs[j]) by {
            if k < st1.pending.len() {
                assert(st1.pending[k] == request_of(cs[0]));
                assert(stf.pending[k] == request_of(cs[0]));
            } else {
                let j0 = choose|j0: int|
                    0 <= j0 < cs.drop_first().len() && stf.pending[k] == request_of(
                        #[trigger] cs.drop_first()[j0],
                    );
                assert(cs.drop_first()[j0] == cs[j0 + 1]);
                assert(stf.pending[k] == request_of(cs[j0 + 1]));
            }
        }
    }
}

/// Cross-repository resolution: every request a response step adds to the
/// work queue is the request some child's own URL gives rise to — owner
/// and repository derived from the child's URL, never inherited from the
/// fetched parent. Requests already queued are untouched.
pub proof fn lemma_step_requests_from_children(
    st: CrawlerModel,
    parent: IssueModel,
    cs: Seq<IssueModel>,
)
    ensures
        step_response(st, parent, cs).pending.len() >= st.pending.len(),
        forall|k: int|
            0 <= k < st.pending.len() ==> #[trigger] step_response(st, parent, cs).pending[k]
                == st.pending[k],
        forall|k: int|
            st.pending.len() <= k < step_response(st, parent, cs).pending.len() ==> exists|j: int|
                0 <= j < cs.len() && #[trigger] step_response(st, parent, cs).pending[k]
                    == request_of(#[trigger] cs[j]),
{
    let st1 = if contains_id(st.visited, id_of(parent)) {
        st
    } else {
        CrawlerModel {
            graph: st.graph,
            visited: st.visited.push(id_of(parent)),
            pending: st.pending,
        }
    };
    lemma_step_children_pending(st1, parent, cs);
}

proof fn lemma_step_children_visited(st: CrawlerModel, parent: IssueModel, cs: Seq<IssueModel>)
    requires
        ids_unique(st.visited),
    ensures
        ids_unique(step_children(st, parent, cs).visited),
        step_children(st, parent, cs).visited.len() >= st.visited.len(),
        forall|k: int|
            0 <= k < st.visited.len() ==> #[trigger] step_children(st, parent, cs).visited[k]
                == st.visited[k],
        step_children(st, parent, cs).pending.len() - st.pending.len() == step_children(
            st,
            parent,
            cs,
        ).visited.len() - st.visited.len(),
    decreases cs.len(),
{
    if cs.len() > 0 {
        let st1 = step_child(st, parent, cs[0]);
        if !contains_id(st.visited, id_of(cs[0])) {
            assert(st1.visited == st.visited.push(id_of(cs[0])));
            assert forall|x: int, y: int| 0 <= x < y < st1.visited.len() implies st1.visited[x]
                != st1.visited[y] by {
                if y < st.visited.len() {
                    assert(st.visited[x] != st.visited[y]);
                } else {
                    assert(st1.visited[y] == id_of(cs[0]));
                    assert(st1.visited[x] == st.visited[x]);
                    assert(!contains_id(st.visited, id_of(cs[0])));
                }
            }
        }
        lemma_step_children_visited(st1, parent, cs.drop_first());
    }
}

/// Termination and duplicate-visit avoidance: a response step only ever
/// extends the visited set — the fetched issue's identity plus one entry
/// per newly scheduled child — it never removes or repeats an identity,
/// and it adds exactly one queued request per child identity newly marked
/// visited. An identity once visited is therefore never scheduled again,
/// so the number of fetches a whole crawl performs is bounded by the
/// number of distinct identities it meets: recursion depth is bounded by
/// graph size, not path length, and a cyclic tracking relation still lets
/// the crawl terminate.
pub proof fn lemma_step_visited_once(st: CrawlerModel, parent: IssueModel, cs: Seq<IssueModel>)
    requires
        ids_unique(st.visited),
    ensures
        ids_unique(step_response(st, parent, cs).visited),
        step_response(st, parent, cs).visited.len() >= st.visited.len(),
        forall|k: int|
            0 <= k < st.visited.len() ==> #[trigger] step_response(st, parent, cs).visited[k]
                == st.visited[k],
        step_response(st, parent, cs).pending.len() - st.pending.len() == step_response(
            st,
            parent,
            cs,
        ).visited.len() - st.visited.len() - (if contains_id(st.visited, id_of(parent)) {
            0int
        } else {
            1int
        }),
{
    let st1 = if contains_id(st.visited, id_of(parent)) {
        st
    } else {
        CrawlerModel {
            graph: st.graph,
            visited: st.visited.push(id_of(parent)),
            pending: st.pending,
        }
    };
    if !contains_id(st.visited, id_of(parent)) {
        assert forall|x: int, y: int| 0 <= x < y < st1.visited.len() implies st1.visited[x]
            != st1.visited[y] by {
            if y < st.visited.len() {
                assert(st.visited[x] != st.visited[y]);
            } else {
                assert(st1.visited[y] == id_of(parent));
                assert(st1.visited[x] == st.visited[x]);
            }
        }
    }
    lemma_step_children_visited(st1, parent, cs);
}

/// Whether some visited identity equals `id`.
fn visited_contains(v: &Vec<String>, id: &str) -> (r: bool)
    ensures
        r == contains_id(v@.map_values(|s: String| s@), id@),
{
    let ghost vm = v@.map_values(|s: String| s@);
    let n = v.len();
    let mut i: usize = 0;
    while i < n
        invariant
            n == v@.len(),
            i <= n,
            vm == v@.map_values(|s: String| s@),
            forall|j: int| 0 <= j < i ==> vm[j] != id@,
        decreases n - i,
    {
        if str_eq(v[i].as_str(), id) {
            proof {
                assert(vm[i as int] == id@);
            }
            return true;
        }
        i += 1;
    }
    false
}

/// The crawler: its accumulated graph, the identities already scheduled for
/// expansion (or expanded), and the fetches not yet carried out.
pub struct Crawler {
    pub graph: IssueGraph,
    pub visited: Vec<String>,
    pub pending: Vec<FetchRequest>,
}

impl View for Crawler {
    type V = CrawlerModel;

    open spec fn view(&self) -> CrawlerModel {
        CrawlerModel {
            graph: self.graph@,
            visited: self.visited@.map_values(|s: String| s@),
            pending: self.pending@.map_values(|r: FetchRequest| r@),
        }
    }
}

impl Crawler {
    /// The graph invariant holds and no identity was marked visited twice.
    pub open spec fn wf(&self) -> bool {
        &&& self.graph.wf()
        &&& ids_unique(self@.visited)
    }

    /// A crawl about to start: nothing visited, nothing recorded, and one
    /// pending fetch of the root issue.
    pub fn new(owner: String, repository: String, number: i64) -> (c: Crawler)
        ensures
            c.wf(),
            c@.graph =~= Seq::<(IssueModel, Seq<IssueModel>)>::empty(),
            c@.visited =~= Seq::<Seq<char>>::empty(),
            c@.pending =~= seq![
                RequestModel { owner: owner@, repository: repository@, number: number as int },
            ],
    {
        let mut pending: Vec<FetchRequest> = Vec::new();
        pending.push(FetchRequest { owner, repository, number });
        Crawler { graph: IssueGraph::new(), visited: Vec::new(), pending }
    }

    /// Whether every scheduled fetch has been carried out.
    pub fn is_done(&self) -> (r: bool)
        ensures
            r == (self@.pending.len() == 0),
    {
        self.pending.len() == 0
    }

    /// Takes the most recently scheduled fetch off the queue, or reports
    /// that the crawl is finished. Graph and visited set are untouched.
    pub fn next_request(&mut self) -> (r: Option<FetchRequest>)
        requires
            old(self).wf(),
        ensures
            final(self).wf(),
            old(self)@.pending.len() == 0 ==> r is None && final(self)@ == old(self)@,
            old(self)@.pending.len() > 0 ==> {
                &&& r is Some
                &&& r->0@ == old(self)@.pending.last()
                &&& final(self)@.pending == old(self)@.pending.drop_last()
                &&& final(self)@.graph == old(self)@.graph
                &&& final(self)@.visited == old(self)@.visited
            },
    {
        let r = self.pending.pop();
        proof {
            if old(self)@.pending.len() > 0 {
                assert(self.pending@.map_values(|q: FetchRequest| q@) =~= old(
                    self,
                )@.pending.drop_last());
            } else {
                assert(self.pending@.map_values(|q: FetchRequest| q@) =~= old(self)@.pending);
            }
        }
        r
    }

    /// Records one fetched response: the fetched issue `parent` and its
    /// direct children. Each edge goes into the graph; each child whose
    /// identity has not been seen before is marked visited and scheduled,
    /// addressed by the owner and repository its own URL names.
    pub fn handle_response(&mut self, parent: &Issue, children: &Vec<Issue>)
        requires
            old(self).wf(),
            forall|i: int| 0 <= i < children@.len() ==> (#[trigger] children@[i]).wf(),
        ensures
            final(self).wf(),
            final(self)@ == step_response(
                old(self)@,
                parent@,
                children@.map_values(|c: Issue| c@),
            ),
    {
        let ghost cs = children@.map_values(|c: Issue| c@);
        let ghost st0 = self@;
        if !visited_contains(&self.visited, parent.url.as_str()) {
            self.visited.push(parent.id());
            proof {
                assert(self@.visited =~= st0.visited.push(parent@.url));
                assert(self@.graph == st0.graph);
                assert(self@.pending =~= st0.pending);
            }
        }
        let ghost st1 = self@;
        proof {
            assert(st1 == if contains_id(st0.visited, id_of(parent@)) {
                st0
            } else {
                CrawlerModel {
                    graph: st0.graph,
                    visited: st0.visited.push(id_of(parent@)),
                    pending: st0.pending,
                }
            });
            assert(ids_unique(st1.visited));
        }
        let n = children.len();
        let mut i: usize = 0;
        proof {
            assert(cs.skip(0) =~= cs);
        }
        while i < n
            invariant
                n == children@.len(),
                i <= n,
                cs == children@.map_values(|c: Issue| c@),
                forall|j: int| 0 <= j < children@.len() ==> (#[trigger] children@[j]).wf(),
                self.wf(),
                step_children(st1, parent@, cs) == step_children(
                    self@,
                    parent@,
                    cs.skip(i as int),
                ),
            decreases n - i,
        {
            let ghost stb = self@;
            let child = &children[i];
            proof {
                assert(child@ == cs[i as int]);
            }
            self.graph.add_edge(parent, child);
            if !visited_contains(&self.visited, child.url.as_str()) {
                let number = child.number;
                let owner = child.owner();
                let repository = child.repo();
                self.visited.push(child.id());
                self.pending.push(FetchRequest { owner, repository, number });
                proof {
                    assert(self@.visited =~= stb.visited.push(id_of(child@)));
                    assert(self@.pending =~= stb.pending.push(request_of(child@)));
                    assert(self@ == step_child(stb, parent@, cs[i as int]));
                    assert forall|x: int, y: int|
                        0 <= x < y < self@.visited.len() implies self@.visited[x]
                        != self@.visited[y] by {
                        if y < stb.visited.len() {
                            assert(stb.visited[x] != stb.visited[y]);
                        } else {
                            assert(!contains_id(stb.visited, id_of(child@)));
                            assert(self@.visited[x] == stb.visited[x]);
                        }
                    }
                }
            } else {
                proof {
                    assert(self@.visited =~= stb.visited);
                    assert(self@.pending =~= stb.pending);
                    assert(self@ == step_child(stb, parent@, cs[i as int]));
                }
            }
            proof {
                assert(cs.skip(i as int)[0] == cs[i as int]);
                assert(cs.skip(i as int).drop_first() =~= cs.skip(i as int + 1));
                assert(step_children(stb, parent@, cs.skip(i as int)) == step_children(
                    self@,
                    parent@,
                    cs.skip(i as int + 1),
                ));
            }
            i += 1;
        }
        proof {
            assert(cs.skip(n as int).len() == 0);
            assert(step_children(self@, parent@, cs.skip(n as int)) == self@);
            assert(self@ == step_children(st1, parent@, cs));
        }
    }

    /// Hands the finished graph to the caller; the crawl is over.
    pub fn into_graph(self) -> (g: IssueGraph)
        requires
            self.wf(),
        ensures
            g@ == self@.graph,
            g.wf(),
    {
        self.graph
    }
}

} // verus!
