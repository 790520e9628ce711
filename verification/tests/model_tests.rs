use dangit::model::Issue;
use dangit::model::IssueType;
use dangit::model::Notification;
use dangit::model::Subject;

fn notification(title: &str, url: &str) -> Notification {
    Notification {
        subject: Subject {
            title: title.to_string(),
            url: url.to_string(),
            latest_comment_url: None,
        },
    }
}

#[test]
fn html_url_rewrites_issue_link() {
    let n = notification(
        "fix the release",
        "https://api.github.com/repos/release-plz/release-plz/issues/1852",
    );
    assert_eq!(
        n.html_url(),
        "https://github.com/release-plz/release-plz/issues/1852"
    );
}

#[test]
fn html_url_rewrites_pull_link() {
    let n = notification(
        "rustc update",
        "https://api.github.com/repos/rust-lang/rust/pulls/132721",
    );
    assert_eq!(n.html_url(), "https://github.com/rust-lang/rust/pull/132721");
}

#[test]
fn html_url_rewrites_other_hosts() {
    let n = notification("widget", "https://api.example.com/repos/acme/widget/pulls/42");
    assert_eq!(n.html_url(), "https://example.com/acme/widget/pull/42");
}

#[test]
fn html_url_is_idempotent_on_its_output() {
    let n = notification("widget", "https://api.example.com/repos/acme/widget/pulls/42");
    let once = n.html_url();
    let again = notification("widget", &once).html_url();
    assert_eq!(once, again);
}

#[test]
fn html_url_leaves_plain_links_alone() {
    let n = notification("readme", "https://github.com/acme/widget/issues/7");
    assert_eq!(n.html_url(), "https://github.com/acme/widget/issues/7");
}

#[test]
fn html_url_keeps_distinct_links_distinct() {
    let a = notification("a", "https://api.github.com/repos/x/pulls/issues/5").html_url();
    let b = notification("b", "https://api.github.com/repos/x/pull/issues/5").html_url();
    assert_ne!(a, b);
    assert_eq!(a, "https://github.com/x/pulls/issues/5");
    assert_eq!(b, "https://github.com/x/pull/issues/5");
}

#[test]
fn html_url_touches_only_the_marked_segments() {
    let n = notification("r", "https://api.github.com/repos/acme/repos/issues/5");
    assert_eq!(n.html_url(), "https://github.com/acme/repos/issues/5");
}

#[test]
fn issue_display_line() {
    let issue = Issue {
        html_url: "https://github.com/acme/widget/issues/7".to_string(),
        title: "broken build".to_string(),
        repository: "widget".to_string(),
        issue_type: IssueType::Issue,
    };
    assert_eq!(
        issue.display_string(),
        "widget: broken build → https://github.com/acme/widget/issues/7"
    );
}

#[test]
fn notification_display_line() {
    let n = notification(
        "fix the release",
        "https://api.github.com/repos/acme/widget/pulls/3",
    );
    assert_eq!(
        n.display_string(),
        "fix the release → https://github.com/acme/widget/pull/3"
    );
}

#[test]
fn issue_type_labels() {
    assert_eq!(IssueType::Issue.label(), "Issue");
    assert_eq!(IssueType::PullRequest.label(), "PR");
}
