//! The failure taxonomy of a crawl. None of these are recovered locally:
//! any failure aborts the whole crawl and is surfaced to the caller.

use vstd::prelude::*;

verus! {

/// Why a crawl (or its setup) failed.
#[derive(Clone, Copy, Debug, PartialEq, Eq, Structural)]
pub enum CrawlError {
    /// No access token was found in the environment at startup.
    MissingCredential,
    /// The remote service rejected the credential.
    AuthRejected,
    /// The queried repository does not exist or is not visible.
    RepositoryNotFound,
    /// The queried issue does not exist within its repository.
    IssueNotFound,
    /// A field the response contract guarantees was absent.
    MalformedResponse,
    /// The request could not be carried out at the transport level.
    NetworkFailure,
}

impl CrawlError {
    /// A short stable name for the failure kind, for messages.
    pub fn describe(&self) -> (r: &'static str)
        ensures
            r@ == self.describe_spec(),
    {
        match self {
            CrawlError::MissingCredential => "missing credential",
            CrawlError::AuthRejected => "authentication rejected",
            CrawlError::RepositoryNotFound => "repository not found",
            CrawlError::IssueNotFound => "issue not found",
            CrawlError::MalformedResponse => "malformed response",
            CrawlError::NetworkFailure => "network failure",
        }
    }

    /// The message `describe` returns for each failure kind.
    pub open spec fn describe_spec(&self) -> Seq<char> {
        match self {
            CrawlError::MissingCredential => "missing credential"@,
            CrawlError::AuthRejected => "authentication rejected"@,
            CrawlError::RepositoryNotFound => "repository not found"@,
            CrawlError::IssueNotFound => "issue not found"@,
            CrawlError::MalformedResponse => "malformed response"@,
            CrawlError::NetworkFailure => "network failure"@,
        }
    }
}

} // verus!
