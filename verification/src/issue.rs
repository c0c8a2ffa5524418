//! The issue node type and the identity / owner / repository derivations
//! the crawler relies on.

use crate::text::{split_char, split_slash};
use vstd::prelude::*;

verus! {

/// Mathematical model of an issue node: plain values only.
pub ghost struct IssueModel {
    pub number: int,
    pub title: Seq<char>,
    pub state: Seq<char>,
    pub url: Seq<char>,
}

/// One issue node discovered by the crawl.
///
/// `state` holds the upstream state string already normalised to one of
/// `"OPEN"`, `"CLOSED"` or `"OTHER"`.
#[derive(Debug)]
pub struct Issue {
    pub number: i64,
    pub title: String,
    pub state: String,
    pub url: String,
}

impl View for Issue {
    type V = IssueModel;

    open spec fn view(&self) -> IssueModel {
        IssueModel {
            number: self.number as int,
            title: self.title@,
            state: self.state@,
            url: self.url@,
        }
    }
}

/// The identity key of an issue: its canonical URL. Two issues are the same
/// node of the graph exactly when their URLs are equal character for
/// character.
pub open spec fn id_of(m: IssueModel) -> Seq<char> {
    m.url
}

/// The owner encoded in a canonical issue URL: the fourth `/`-separated
/// segment (`https:`, ``, host, owner, repository, ...).
pub open spec fn url_owner(u: Seq<char>) -> Seq<char> {
    split_char(u, '/')[3]
}

/// The repository encoded in a canonical issue URL: the fifth `/`-separated
/// segment.
pub open spec fn url_repo(u: Seq<char>) -> Seq<char> {
    split_char(u, '/')[4]
}

/// A URL with enough segments for owner and repository to be derived.
pub open spec fn wf_url(u: Seq<char>) -> bool {
    split_char(u, '/').len() >= 5
}

impl Issue {
    /// The node has a URL that owner and repository can be read from.
    pub open spec fn wf(&self) -> bool {
        wf_url(self@.url)
    }

    /// The globally unique key of this issue, used for deduplication and as
    /// the node label of the rendered diagram.
    pub fn id(&self) -> (r: String)
        ensures
            r@ == id_of(self@),
    {
        self.url.clone()
    }

    /// The owner this issue belongs to, derived from its URL alone, so that
    /// a child living in another repository is fetched from there.
    pub fn owner(&self) -> (r: String)
        requires
            self.wf(),
        ensures
            r@ == url_owner(self@.url),
    {
        let segs = split_slash(self.url.as_str());
        segs[3].clone()
    }

    /// The repository this issue belongs to, derived from its URL alone.
    pub fn repo(&self) -> (r: String)
        requires
            self.wf(),
        ensures
            r@ == url_repo(self@.url),
    {
        let segs = split_slash(self.url.as_str());
        segs[4].clone()
    }

    /// Whether this issue's URL holds enough segments for `owner` and
    /// `repo` to be derived. A driver checks this before asking for them.
    pub fn location_derivable(&self) -> (r: bool)
        ensures
            r == self.wf(),
    {
        let segs = split_slash(self.url.as_str());
        segs.len() >= 5
    }

    /// An exact copy of the node.
    pub fn duplicate(&self) -> (r: Issue)
        ensures
            r == *self,
    {
        Issue {
            number: self.number,
            title: self.title.clone(),
            state: self.state.clone(),
            url: self.url.clone(),
        }
    }
}

} // verus!
