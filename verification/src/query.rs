//! The shape of the remote query and of its response, as the core consumes
//! it, and the verified translation of a response into issue nodes.
//!
//! The wire transport itself (HTTP, JSON) lives outside the library; what
//! arrives here are plain values of these types.

use crate::error::CrawlError;
use crate::issue::{Issue, IssueModel};
use crate::text::str_eq;
use vstd::prelude::*;

verus! {

/// The query that fetches one issue without its tracked children.
pub struct IssueQuery;

impl IssueQuery {
    /// The operation name this query is issued under.
    pub fn operation_name() -> (r: &'static str)
        ensures
            r@ == "IssueQuery"@,
    {
        "IssueQuery"
    }

    /// The query document sent to the service.
    pub fn query_text() -> (r: &'static str)
        ensures
            r@
                == "query IssueQuery($owner: String!, $repository_name: String!, $number: Int!) {\n  repository(owner: $owner, name:$repository_name) {\n    name\n    issue(number: $number){\n          title\n          trackedIssues(first: 10){\n            nodes {\n              number\n              title\n              state\n          }\n      }\n    }\n  }\n}\n"@,
    {
        "query IssueQuery($owner: String!, $repository_name: String!, $number: Int!) {\n  repository(owner: $owner, name:$repository_name) {\n    name\n    issue(number: $number){\n          title\n          trackedIssues(first: 10){\n            nodes {\n              number\n              title\n              state\n          }\n      }\n    }\n  }\n}\n"
    }
}

/// The query that fetches one issue together with its directly tracked
/// children: the issue's own title, state, URL and number, and the same
/// four fields for each directly tracked child.
pub struct TrackIssuesQuery;

impl TrackIssuesQuery {
    /// The operation name this query is issued under.
    pub fn operation_name() -> (r: &'static str)
        ensures
            r@ == "TrackIssuesQuery"@,
    {
        "TrackIssuesQuery"
    }

    /// The query document sent to the service.
    pub fn query_text() -> (r: &'static str)
        ensures
            r@
                == "query TrackIssuesQuery($owner: String!, $repository_name: String!, $number: Int!) {\n  repository(owner: $owner, name: $repository_name) {\n    name\n    issue(number: $number) {\n      title\n      state\n      url\n      number\n      trackedIssues(first: 10) {\n        nodes {\n          number\n          title\n          state\n          url\n        }\n      }\n    }\n  }\n}\n"@,
    {
        "query TrackIssuesQuery($owner: String!, $repository_name: String!, $number: Int!) {\n  repository(owner: $owner, name: $repository_name) {\n    name\n    issue(number: $number) {\n      title\n      state\n      url\n      number\n      trackedIssues(first: 10) {\n        nodes {\n          number\n          title\n          state\n          url\n        }\n      }\n    }\n  }\n}\n"
    }
}

/// The variables a query is issued with.
pub struct Variables {
    pub owner: String,
    pub repository_name: String,
    pub number: i64,
}

/// The state of an issue as the remote service reports it. Unrecognised
/// values are carried through, not rejected.
pub enum IssueState {
    CLOSED,
    OPEN,
    Other(String),
}

/// The normalised state string a reported state maps to: `OPEN` and
/// `CLOSED` are kept, anything else becomes `OTHER`.
pub open spec fn state_str(s: &IssueState) -> Seq<char> {
    match s {
        IssueState::OPEN => "OPEN"@,
        IssueState::CLOSED => "CLOSED"@,
        IssueState::Other(_) => "OTHER"@,
    }
}

/// Maps a reported issue state to its normalised state string.
pub fn state_to_string(state: &IssueState) -> (r: String)
    ensures
        r@ == state_str(state),
{
    let s: &'static str = match state {
        IssueState::OPEN => "OPEN",
        IssueState::CLOSED => "CLOSED",
        IssueState::Other(_) => "OTHER",
    };
    String::from_str(s)
}

/// Parses a state string as the wire decoder does: the two recognised
/// values map to their variants, anything else is carried as `Other`.
pub fn state_from_str(s: String) -> (r: IssueState)
    ensures
        s@ == "CLOSED"@ ==> r == IssueState::CLOSED,
        s@ == "OPEN"@ ==> r == IssueState::OPEN,
        s@ != "CLOSED"@ && s@ != "OPEN"@ ==> r == IssueState::Other(s),
{
    proof {
        reveal_strlit("CLOSED");
        reveal_strlit("OPEN");
        assert("OPEN"@.len() == 4);
        assert("CLOSED"@.len() == 6);
        assert("OPEN"@ != "CLOSED"@);
    }
    if str_eq(s.as_str(), "CLOSED") {
        IssueState::CLOSED
    } else if str_eq(s.as_str(), "OPEN") {
        IssueState::OPEN
    } else {
        IssueState::Other(s)
    }
}

/// The serialised form of a state, as the wire encoder writes it.
pub fn state_wire_str<'a>(state: &'a IssueState) -> (r: &'a str)
    ensures
        match state {
            IssueState::CLOSED => r@ == "CLOSED"@,
            IssueState::OPEN => r@ == "OPEN"@,
            IssueState::Other(s) => r@ == s@,
        },
{
    match state {
        IssueState::CLOSED => "CLOSED",
        IssueState::OPEN => "OPEN",
        IssueState::Other(s) => s.as_str(),
    }
}

/// The payload of a response.
pub struct ResponseData {
    pub repository: Option<IssueQueryRepository>,
}

/// The repository part of a response.
pub struct IssueQueryRepository {
    pub name: String,
    pub issue: Option<IssueQueryRepositoryIssue>,
}

/// The queried issue: its own metadata and its directly tracked children.
pub struct IssueQueryRepositoryIssue {
    pub number: i64,
    pub title: String,
    pub state: IssueState,
    pub url: String,
    pub tracked_issues: IssueQueryRepositoryIssueTrackedIssues,
}

/// The tracked-children part of the queried issue. Absent `nodes` means no
/// tracked issues, not an error.
pub struct IssueQueryRepositoryIssueTrackedIssues {
    pub nodes: Option<Vec<Option<IssueQueryRepositoryIssueTrackedIssuesNodes>>>,
}

/// One directly tracked child as reported by the service.
pub struct IssueQueryRepositoryIssueTrackedIssuesNodes {
    pub number: i64,
    pub title: String,
    pub state: IssueState,
    pub url: String,
}

impl IssueQueryRepositoryIssueTrackedIssuesNodes {
    /// The issue node this reported child denotes.
    pub open spec fn issue_model(&self) -> IssueModel {
        IssueModel {
            number: self.number as int,
            title: self.title@,
            state: state_str(&self.state),
            url: self.url@,
        }
    }
}

impl IssueQueryRepositoryIssue {
    /// The issue node the queried issue itself denotes.
    pub open spec fn issue_model(&self) -> IssueModel {
        IssueModel {
            number: self.number as int,
            title: self.title@,
            state: state_str(&self.state),
            url: self.url@,
        }
    }

    /// The children this response reports, assuming none of them is absent.
    pub open spec fn children_models(&self) -> Seq<IssueModel> {
        match self.tracked_issues.nodes {
            Option::None => Seq::empty(),
            Option::Some(v) => v@.map_values(
                |n: Option<IssueQueryRepositoryIssueTrackedIssuesNodes>| n->0.issue_model(),
            ),
        }
    }
}

/// The failure a response translates to, if any: an absent payload is
/// malformed, an absent repository or issue names what was not found, and a
/// null entry inside the reported children is malformed. An absent child
/// list is valid and means no tracked issues.
pub open spec fn response_error(data: &Option<ResponseData>) -> Option<CrawlError> {
    if *data is None {
        Option::Some(CrawlError::MalformedResponse)
    } else if (*data)->0.repository is None {
        Option::Some(CrawlError::RepositoryNotFound)
    } else if (*data)->0.repository->0.issue is None {
        Option::Some(CrawlError::IssueNotFound)
    } else {
        let issue = (*data)->0.repository->0.issue->0;
        match issue.tracked_issues.nodes {
            Option::None => Option::None,
            Option::Some(v) => {
                if exists|i: int| 0 <= i < v@.len() && v@[i] is None {
                    Option::Some(CrawlError::MalformedResponse)
                } else {
                    Option::None
                }
            },
        }
    }
}

/// Translates one response into the fetched issue and its children.
///
/// Succeeds exactly when `response_error` reports no failure; the parent is
/// the queried issue's own metadata, the children are the reported tracked
/// issues in order, each with its state normalised.
pub fn parse_response(data: Option<ResponseData>) -> (r: Result<(Issue, Vec<Issue>), CrawlError>)
    ensures
        match r {
            Result::Ok(pc) => {
                &&& response_error(&data) is None
                &&& pc.0@ == data->0.repository->0.issue->0.issue_model()
                &&& pc.1@.map_values(|c: Issue| c@) == data->0.repository->0.issue
                    ->0.children_models()
            },
            Result::Err(e) => {
                &&& response_error(&data) is Some
                &&& e == response_error(&data)->0
            },
        },
{
    let rd = match &data {
        Option::Some(rd) => rd,
        Option::None => {
            return Result::Err(CrawlError::MalformedResponse);
        },
    };
    let repository = match &rd.repository {
        Option::Some(repo) => repo,
        Option::None => {
            return Result::Err(CrawlError::RepositoryNotFound);
        },
    };
    let issue = match &repository.issue {
        Option::Some(issue) => issue,
        Option::None => {
            return Result::Err(CrawlError::IssueNotFound);
        },
    };
    proof {
        assert(data->0 == *rd);
        assert(data->0.repository->0 == *repository);
        assert(data->0.repository->0.issue->0 == *issue);
    }
    let parent = Issue {
        number: issue.number,
        title: issue.title.clone(),
        state: state_to_string(&issue.state),
        url: issue.url.clone(),
    };
    let mut children: Vec<Issue> = Vec::new();
    let nodes = match &issue.tracked_issues.nodes {
        Option::None => {
            proof {
                assert(children@.map_values(|c: Issue| c@) =~= issue.children_models());
            }
            return Result::Ok((parent, children));
        },
        Option::Some(nodes) => nodes,
    };
    let n = nodes.len();
    let mut i: usize = 0;
    while i < n
        invariant
            n == nodes@.len(),
            i <= n,
            data is Some,
            data->0.repository is Some,
            data->0.repository->0.issue is Some,
            data->0.repository->0.issue->0 == *issue,
            issue.tracked_issues.nodes is Some,
            issue.tracked_issues.nodes->0@ == nodes@,
            parent@ == issue.issue_model(),
            forall|j: int| 0 <= j < i ==> nodes@[j] is Some,
            children@.map_values(|c: Issue| c@) =~= nodes@.subrange(0, i as int).map_values(
                |node: Option<IssueQueryRepositoryIssueTrackedIssuesNodes>| node->0.issue_model(),
            ),
        decreases n - i,
    {
        let node_ref = &nodes[i];
        let node = match node_ref {
            Option::Some(node) => node,
            Option::None => {
                proof {
                    assert(data->0.repository->0.issue->0.tracked_issues.nodes->0@[i as int]
                        is None);
                    assert(response_error(&data) is Some);
                }
                return Result::Err(CrawlError::MalformedResponse);
            },
        };
        proof {
            assert(nodes@[i as int] == Option::Some(*node));
        }
        let ghost ch0 = children@;
        let child_issue = Issue {
            number: node.number,
            title: node.title.clone(),
            state: state_to_string(&node.state),
            url: node.url.clone(),
        };
        proof {
            assert(child_issue@ == node.issue_model());
        }
        children.push(child_issue);
        proof {
            let csm = children@.map_values(|c: Issue| c@);
            let tgt = nodes@.subrange(0, i as int + 1).map_values(
                |node: Option<IssueQueryRepositoryIssueTrackedIssuesNodes>| node->0.issue_model(),
            );
            assert(children@ == ch0.push(child_issue));
            assert(ch0.map_values(|c: Issue| c@).len() == ch0.len());
            assert(ch0.len() == i as int);
            assert(children@.len() == i as int + 1);
            assert forall|j: int| 0 <= j <= i as int implies csm[j] == tgt[j] by {
                assert(nodes@.subrange(0, i as int + 1)[j] == nodes@[j]);
                if j < i as int {
                    assert(csm[j] == children@[j]@);
                    assert(children@[j] == ch0[j]);
                    assert(ch0.map_values(|c: Issue| c@)[j] == ch0[j]@);
                    assert(nodes@.subrange(0, i as int)[j] == nodes@[j]);
                } else {
                    assert(children@[j] == child_issue);
                }
            }
            assert(csm =~= tgt);
        }
        i += 1;
    }
    proof {
        assert(nodes@.subrange(0, n as int) =~= nodes@);
        assert(children@.map_values(|c: Issue| c@) == issue.children_models());
        assert(response_error(&data) is None);
    }
    Result::Ok((parent, children))
}

} // verus!
