//! The strings handed to the hosting service: the search expressions for
//! open issues and pull requests (restricted to one organization when one
//! is given), the fixed query documents around them, and the
//! authorization header value built from a bearer token.

use vstd::prelude::*;
use vstd::string::StringExecFns;

verus! {

/// The character view of an optional name.
pub open spec fn opt_str_view(org: Option<&String>) -> Option<Seq<char>> {
    match org {
        Some(o) => Some(o@),
        None => None,
    }
}

/// The search expression for open issues of the current user, scoped to
/// the `filter` role (author or assignee) and, when one is given, to an
/// organization.
pub open spec fn spec_issue_search_expr(org: Option<Seq<char>>, filter: Seq<char>) -> Seq<char> {
    match org {
        Some(o) => "org:"@ + o + " state:open is:issue "@ + filter + ":@me"@,
        None => "state:open is:issue "@ + filter + ":@me"@,
    }
}

pub fn issue_search_expr(org: Option<&String>, filter: &str) -> (r: String)
    ensures
        r@ == spec_issue_search_expr(opt_str_view(org), filter@),
{
    match org {
        Some(o) => {
            let mut s = "org:".to_owned();
            s.append(o.as_str());
            s.append(" state:open is:issue ");
            s.append(filter);
            s.append(":@me");
            s
        },
        None => {
            let mut s = "state:open is:issue ".to_owned();
            s.append(filter);
            s.append(":@me");
            s
        },
    }
}

/// The search expression for open pull requests, built like the issue
/// expression.
pub open spec fn spec_pr_search_expr(org: Option<Seq<char>>, filter: Seq<char>) -> Seq<char> {
    match org {
        Some(o) => "org:"@ + o + " state:open is:pr "@ + filter + ":@me"@,
        None => "state:open is:pr "@ + filter + ":@me"@,
    }
}

pub fn pr_search_expr(org: Option<&String>, filter: &str) -> (r: String)
    ensures
        r@ == spec_pr_search_expr(opt_str_view(org), filter@),
{
    match org {
        Some(o) => {
            let mut s = "org:".to_owned();
            s.append(o.as_str());
            s.append(" state:open is:pr ");
            s.append(filter);
            s.append(":@me");
            s
        },
        None => {
            let mut s = "state:open is:pr ".to_owned();
            s.append(filter);
            s.append(":@me");
            s
        },
    }
}

/// The full issue query document around the search expression.
pub fn issue_query_document(search: &str) -> (r: String)
    ensures
        r@ == "\nquery Issues{\n  search(first: 100, type: ISSUE, query: \""@ + search@
            + "\") {\n    issueCount\n    pageInfo {\n      hasNextPage\n      endCursor\n    }\n    edges {\n      node {\n        ... on Issue {\n          createdAt\n          title\n          author {\n            login\n          }\n          url,\n          repository {\n            name\n          }\n        }\n      }\n    }\n    }\n}"@,
{
    let mut s = "\nquery Issues{\n  search(first: 100, type: ISSUE, query: \"".to_owned();
    s.append(search);
    s.append(
        "\") {\n    issueCount\n    pageInfo {\n      hasNextPage\n      endCursor\n    }\n    edges {\n      node {\n        ... on Issue {\n          createdAt\n          title\n          author {\n            login\n          }\n          url,\n          repository {\n            name\n          }\n        }\n      }\n    }\n    }\n}",
    );
    s
}

/// The full pull-request query document around the search expression.
pub fn pr_query_document(search: &str) -> (r: String)
    ensures
        r@ == "\nquery PullRequests {\n  search(first: 100, type: ISSUE, query: \""@ + search@
            + "\") {\n    issueCount\n    edges {\n      node {\n        ... on PullRequest {\n          title\n          url\n          repository {\n            name\n          }\n          author {\n            login\n          }\n        }\n      }\n    }\n  }\n}"@,
{
    let mut s = "\nquery PullRequests {\n  search(first: 100, type: ISSUE, query: \"".to_owned();
    s.append(search);
    s.append(
        "\") {\n    issueCount\n    edges {\n      node {\n        ... on PullRequest {\n          title\n          url\n          repository {\n            name\n          }\n          author {\n            login\n          }\n        }\n      }\n    }\n  }\n}",
    );
    s
}

/// The authorization header value carrying a bearer token.
pub fn bearer_header_value(token: &str) -> (r: String)
    ensures
        r@ == "Bearer "@ + token@,
{
    let mut s = "Bearer ".to_owned();
    s.append(token);
    s
}

} // verus!
