use gid::error::CrawlError;
use gid::query::{
    parse_response, state_from_str, state_to_string, state_wire_str, IssueQuery,
    IssueQueryRepository, IssueQueryRepositoryIssue, IssueQueryRepositoryIssueTrackedIssues,
    IssueQueryRepositoryIssueTrackedIssuesNodes, IssueState, ResponseData, TrackIssuesQuery,
    Variables,
};

fn node(number: i64, title: &str, state: IssueState, url: &str) -> IssueQueryRepositoryIssueTrackedIssuesNodes {
    IssueQueryRepositoryIssueTrackedIssuesNodes {
        number,
        title: String::from(title),
        state,
        url: String::from(url),
    }
}

fn full_response(
    nodes: Option<Vec<Option<IssueQueryRepositoryIssueTrackedIssuesNodes>>>,
) -> Option<ResponseData> {
    Some(ResponseData {
        repository: Some(IssueQueryRepository {
            name: String::from("r"),
            issue: Some(IssueQueryRepositoryIssue {
                number: 1,
                title: String::from("Root"),
                state: IssueState::OPEN,
                url: String::from("https://github.com/o/r/issues/1"),
                tracked_issues: IssueQueryRepositoryIssueTrackedIssues { nodes },
            }),
        }),
    })
}

#[test]
fn absent_payload_is_malformed() {
    assert_eq!(parse_response(None).unwrap_err(), CrawlError::MalformedResponse);
}

#[test]
fn absent_repository_is_repository_not_found() {
    let data = Some(ResponseData { repository: None });
    assert_eq!(parse_response(data).unwrap_err(), CrawlError::RepositoryNotFound);
}

#[test]
fn absent_issue_is_issue_not_found() {
    let data = Some(ResponseData {
        repository: Some(IssueQueryRepository { name: String::from("r"), issue: None }),
    });
    assert_eq!(parse_response(data).unwrap_err(), CrawlError::IssueNotFound);
}

#[test]
fn absent_nodes_means_no_tracked_issues() {
    let (parent, children) = parse_response(full_response(None)).unwrap();
    assert_eq!(parent.number, 1);
    assert_eq!(parent.title, "Root");
    assert_eq!(parent.state, "OPEN");
    assert_eq!(parent.url, "https://github.com/o/r/issues/1");
    assert!(children.is_empty());
}

#[test]
fn null_node_entry_is_malformed() {
    let nodes = vec![
        Some(node(2, "C", IssueState::CLOSED, "https://github.com/o/r/issues/2")),
        None,
    ];
    assert_eq!(
        parse_response(full_response(Some(nodes))).unwrap_err(),
        CrawlError::MalformedResponse
    );
}

#[test]
fn children_are_translated_in_order_with_states_normalised() {
    let nodes = vec![
        Some(node(2, "C1", IssueState::CLOSED, "https://github.com/o/r/issues/2")),
        Some(node(3, "C2", IssueState::Other(String::from("MERGED")), "https://github.com/o/r/issues/3")),
    ];
    let (parent, children) = parse_response(full_response(Some(nodes))).unwrap();
    assert_eq!(parent.state, "OPEN");
    assert_eq!(children.len(), 2);
    assert_eq!(children[0].number, 2);
    assert_eq!(children[0].title, "C1");
    assert_eq!(children[0].state, "CLOSED");
    assert_eq!(children[0].url, "https://github.com/o/r/issues/2");
    assert_eq!(children[1].number, 3);
    assert_eq!(children[1].state, "OTHER");
}

#[test]
fn state_to_string_normalises() {
    assert_eq!(state_to_string(&IssueState::OPEN), "OPEN");
    assert_eq!(state_to_string(&IssueState::CLOSED), "CLOSED");
    assert_eq!(state_to_string(&IssueState::Other(String::from("MERGED"))), "OTHER");
}

#[test]
fn state_from_str_recognises_known_states() {
    assert!(matches!(state_from_str(String::from("CLOSED")), IssueState::CLOSED));
    assert!(matches!(state_from_str(String::from("OPEN")), IssueState::OPEN));
    match state_from_str(String::from("MERGED")) {
        IssueState::Other(s) => assert_eq!(s, "MERGED"),
        _ => panic!("expected the unrecognised state to be carried through"),
    }
}

#[test]
fn state_wire_round_trip() {
    assert_eq!(state_wire_str(&IssueState::CLOSED), "CLOSED");
    assert_eq!(state_wire_str(&IssueState::OPEN), "OPEN");
    let other = IssueState::Other(String::from("DRAFT"));
    assert_eq!(state_wire_str(&other), "DRAFT");
    assert!(matches!(
        state_from_str(String::from(state_wire_str(&IssueState::CLOSED))),
        IssueState::CLOSED
    ));
}

#[test]
fn error_kinds_describe_themselves() {
    assert_eq!(CrawlError::MissingCredential.describe(), "missing credential");
    assert_eq!(CrawlError::AuthRejected.describe(), "authentication rejected");
    assert_eq!(CrawlError::RepositoryNotFound.describe(), "repository not found");
    assert_eq!(CrawlError::IssueNotFound.describe(), "issue not found");
    assert_eq!(CrawlError::MalformedResponse.describe(), "malformed response");
    assert_eq!(CrawlError::NetworkFailure.describe(), "network failure");
}

#[test]
fn query_texts_name_their_operations() {
    assert!(IssueQuery::query_text().contains("query IssueQuery"));
    assert_eq!(IssueQuery::operation_name(), "IssueQuery");
    assert!(TrackIssuesQuery::query_text().contains("query TrackIssuesQuery"));
    assert!(TrackIssuesQuery::query_text().contains("trackedIssues(first: 10)"));
    assert!(TrackIssuesQuery::query_text().contains("url"));
    assert_eq!(TrackIssuesQuery::operation_name(), "TrackIssuesQuery");
    let v = Variables { owner: String::from("o"), repository_name: String::from("r"), number: 9 };
    assert_eq!(v.owner, "o");
    assert_eq!(v.repository_name, "r");
    assert_eq!(v.number, 9);
}
