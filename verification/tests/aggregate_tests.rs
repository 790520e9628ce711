use dangit::aggregate::aggregate;
use dangit::aggregate::items_for_repo;
use dangit::aggregate::repo_list;
use dangit::model::Issue;
use dangit::model::IssueType;

fn issue(url: &str, repo: &str) -> Issue {
    Issue {
        html_url: url.to_string(),
        title: format!("title of {url}"),
        repository: repo.to_string(),
        issue_type: IssueType::Issue,
    }
}

fn titled(url: &str, repo: &str, title: &str) -> Issue {
    Issue {
        html_url: url.to_string(),
        title: title.to_string(),
        repository: repo.to_string(),
        issue_type: IssueType::Issue,
    }
}

#[test]
fn scenario_two_repos_with_duplicate() {
    let created_issues = vec![issue("a", "x")];
    let assigned_issues = vec![issue("a", "x")];
    let created_prs: Vec<Issue> = vec![];
    let assigned_prs = vec![issue("b", "y")];
    let view = aggregate(&created_issues, &assigned_issues, &created_prs, &assigned_prs);
    let repos = repo_list(&view);
    assert_eq!(repos, vec!["x".to_string(), "y".to_string()]);
    let x_items = items_for_repo(&view, &"x".to_string());
    assert_eq!(x_items.len(), 1);
    assert_eq!(x_items[0].html_url, "a");
    let y_items = items_for_repo(&view, &"y".to_string());
    assert_eq!(y_items.len(), 1);
    assert_eq!(y_items[0].html_url, "b");
}

#[test]
fn every_url_appears_exactly_once() {
    let created_issues = vec![issue("a", "x"), issue("b", "x")];
    let assigned_issues = vec![issue("a", "x"), issue("c", "y")];
    let created_prs = vec![issue("b", "x"), issue("d", "z")];
    let assigned_prs = vec![issue("c", "y"), issue("a", "x")];
    let view = aggregate(&created_issues, &assigned_issues, &created_prs, &assigned_prs);
    let mut seen: Vec<String> = Vec::new();
    for repo in repo_list(&view) {
        for item in items_for_repo(&view, &repo) {
            assert!(!seen.contains(&item.html_url), "duplicate {}", item.html_url);
            seen.push(item.html_url.clone());
        }
    }
    let mut expected = vec!["a", "b", "c", "d"];
    expected.sort();
    seen.sort();
    assert_eq!(seen, expected);
}

#[test]
fn created_issue_wins_the_tie() {
    let created_issues = vec![titled("a", "x", "created version")];
    let assigned_issues = vec![titled("a", "x", "assigned version")];
    let none: Vec<Issue> = vec![];
    let view = aggregate(&created_issues, &assigned_issues, &none, &none);
    let items = items_for_repo(&view, &"x".to_string());
    assert_eq!(items.len(), 1);
    assert_eq!(items[0].title, "created version");
}

#[test]
fn repo_keys_strictly_increase() {
    let created_issues = vec![issue("1", "zeta"), issue("2", "alpha")];
    let assigned_issues = vec![issue("3", "midway"), issue("4", "alpha")];
    let created_prs = vec![issue("5", "midway")];
    let assigned_prs = vec![issue("6", "beta")];
    let view = aggregate(&created_issues, &assigned_issues, &created_prs, &assigned_prs);
    let repos = repo_list(&view);
    assert_eq!(repos, vec!["alpha", "beta", "midway", "zeta"]);
    for pair in repos.windows(2) {
        assert!(pair[0] < pair[1]);
    }
}

#[test]
fn group_order_is_first_seen_under_precedence() {
    let created_issues = vec![issue("i2", "x")];
    let assigned_issues = vec![issue("i1", "x"), issue("i2", "x")];
    let none: Vec<Issue> = vec![];
    let view = aggregate(&created_issues, &assigned_issues, &none, &none);
    let items = items_for_repo(&view, &"x".to_string());
    let urls: Vec<&str> = items.iter().map(|it| it.html_url.as_str()).collect();
    assert_eq!(urls, vec!["i2", "i1"]);
}

#[test]
fn four_empty_inputs_yield_the_empty_view() {
    let none: Vec<Issue> = vec![];
    let view = aggregate(&none, &none, &none, &none);
    assert_eq!(repo_list(&view).len(), 0);
}

#[test]
fn absent_repo_yields_the_empty_list() {
    let created_issues = vec![issue("a", "x")];
    let none: Vec<Issue> = vec![];
    let view = aggregate(&created_issues, &none, &none, &none);
    let items = items_for_repo(&view, &"missing".to_string());
    assert_eq!(items.len(), 0);
}
