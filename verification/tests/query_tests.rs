use dangit::query::bearer_header_value;
use dangit::query::issue_query_document;
use dangit::query::issue_search_expr;
use dangit::query::pr_query_document;
use dangit::query::pr_search_expr;

#[test]
fn issue_search_with_organization() {
    let org = "ratatui".to_string();
    assert_eq!(
        issue_search_expr(Some(&org), "assignee"),
        "org:ratatui state:open is:issue assignee:@me"
    );
    assert_eq!(
        issue_search_expr(Some(&org), "author"),
        "org:ratatui state:open is:issue author:@me"
    );
}

#[test]
fn issue_search_without_organization() {
    assert_eq!(
        issue_search_expr(None, "assignee"),
        "state:open is:issue assignee:@me"
    );
}

#[test]
fn pr_search_with_organization() {
    let org = "acme".to_string();
    assert_eq!(
        pr_search_expr(Some(&org), "author"),
        "org:acme state:open is:pr author:@me"
    );
}

#[test]
fn pr_search_without_organization() {
    assert_eq!(pr_search_expr(None, "author"), "state:open is:pr author:@me");
}

#[test]
fn issue_document_wraps_the_search() {
    let doc = issue_query_document("org:acme state:open is:issue author:@me");
    assert!(doc.starts_with("\nquery Issues{\n  search(first: 100, type: ISSUE, query: \""));
    assert!(doc.contains("query: \"org:acme state:open is:issue author:@me\")"));
    assert!(doc.contains("... on Issue {"));
    assert!(doc.contains("repository {"));
    assert!(doc.ends_with("}"));
}

#[test]
fn pr_document_wraps_the_search() {
    let doc = pr_query_document("org:acme state:open is:pr author:@me");
    assert!(doc.starts_with("\nquery PullRequests {\n  search(first: 100, type: ISSUE, query: \""));
    assert!(doc.contains("query: \"org:acme state:open is:pr author:@me\")"));
    assert!(doc.contains("... on PullRequest {"));
}

#[test]
fn bearer_value_prefixes_the_token() {
    assert_eq!(bearer_header_value("abc123"), "Bearer abc123");
}
