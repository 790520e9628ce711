use dangit::gate::Gate;
use dangit::model::Issue;
use dangit::model::IssueType;
use dangit::model::Notification;
use dangit::model::Subject;
use dangit::nav::Command;
use dangit::nav::ExternalAction;
use dangit::nav::LoopDecision;
use dangit::nav::State;
use dangit::nav::Tab;

fn issue(url: &str, repo: &str) -> Issue {
    Issue {
        html_url: url.to_string(),
        title: format!("title of {url}"),
        repository: repo.to_string(),
        issue_type: IssueType::Issue,
    }
}

fn notification(title: &str, url: &str) -> Notification {
    Notification {
        subject: Subject {
            title: title.to_string(),
            url: url.to_string(),
            latest_comment_url: None,
        },
    }
}

fn state_with_two_repos() -> State {
    let created_issues = vec![issue("a", "x"), issue("b", "y")];
    State::new(created_issues, vec![], vec![], vec![], vec![], 0, 800)
}

#[test]
fn initial_state_selects_first_notification() {
    let s = State::new(
        vec![],
        vec![],
        vec![],
        vec![],
        vec![notification("n", "u")],
        0,
        800,
    );
    assert!(s.running);
    assert_eq!(s.tab, Tab::Notifications);
    assert_eq!(s.selection, Some(0));
}

#[test]
fn initial_state_without_data_has_no_selection() {
    let s = State::new(vec![], vec![], vec![], vec![], vec![], 0, 800);
    assert_eq!(s.selection, None);
}

#[test]
fn select_next_moves_and_shows_the_next_repo() {
    let mut s = state_with_two_repos();
    s.apply(Command::NextTab);
    assert_eq!(s.tab, Tab::Issues);
    assert_eq!(s.selection, Some(0));
    let before = s.items_shown();
    assert_eq!(before.len(), 1);
    assert_eq!(before[0].html_url, "a");
    s.apply(Command::SelectNext);
    assert_eq!(s.selection, Some(1));
    let after = s.items_shown();
    assert_eq!(after.len(), 1);
    assert_eq!(after[0].html_url, "b");
}

#[test]
fn selection_saturates_at_the_last_row() {
    let mut s = state_with_two_repos();
    s.apply(Command::NextTab);
    for _ in 0..5 {
        s.apply(Command::SelectNext);
    }
    assert_eq!(s.selection, Some(1));
}

#[test]
fn selection_saturates_at_the_first_row() {
    let mut s = state_with_two_repos();
    s.apply(Command::NextTab);
    s.apply(Command::SelectNext);
    for _ in 0..5 {
        s.apply(Command::SelectPrevious);
    }
    assert_eq!(s.selection, Some(0));
}

#[test]
fn movement_on_an_empty_list_stays_absent() {
    let mut s = State::new(vec![], vec![], vec![], vec![], vec![], 0, 800);
    for _ in 0..3 {
        s.apply(Command::SelectNext);
        assert_eq!(s.selection, None);
        s.apply(Command::SelectPrevious);
        assert_eq!(s.selection, None);
    }
}

#[test]
fn three_tab_advances_come_back_around() {
    let mut s = state_with_two_repos();
    let start = s.tab;
    s.apply(Command::NextTab);
    assert_eq!(s.tab, Tab::Issues);
    s.apply(Command::NextTab);
    assert_eq!(s.tab, Tab::PullRequests);
    s.apply(Command::NextTab);
    assert_eq!(s.tab, start);
}

#[test]
fn tab_advance_resets_the_selection() {
    let mut s = state_with_two_repos();
    s.apply(Command::NextTab);
    s.apply(Command::SelectNext);
    assert_eq!(s.selection, Some(1));
    s.apply(Command::NextTab);
    assert_eq!(s.tab, Tab::PullRequests);
    assert_eq!(s.selection, None);
    s.apply(Command::NextTab);
    assert_eq!(s.tab, Tab::Notifications);
    assert_eq!(s.selection, None);
}

#[test]
fn activate_opens_the_selected_notification() {
    let mut s = State::new(
        vec![],
        vec![],
        vec![],
        vec![],
        vec![
            notification("first", "https://api.github.com/repos/acme/widget/issues/1"),
            notification("second", "https://api.github.com/repos/acme/widget/pulls/2"),
        ],
        0,
        800,
    );
    s.apply(Command::SelectNext);
    let action = s.apply(Command::Activate);
    assert_eq!(
        action,
        Some(ExternalAction::OpenUrl(
            "https://github.com/acme/widget/pull/2".to_string()
        ))
    );
    assert_eq!(s.selection, Some(1));
    assert!(s.running);
}

#[test]
fn activate_elsewhere_does_nothing() {
    let mut s = state_with_two_repos();
    let action = s.apply(Command::Activate);
    assert_eq!(action, None);
    s.apply(Command::NextTab);
    let action = s.apply(Command::Activate);
    assert_eq!(action, None);
}

#[test]
fn quit_lowers_the_running_flag() {
    let mut s = state_with_two_repos();
    s.apply(Command::Quit);
    assert!(!s.running);
    let d = s.loop_phase(10);
    assert_eq!(d, LoopDecision::Stop);
}

#[test]
fn playing_gate_withholds_input() {
    let mut s = state_with_two_repos();
    s.apply(Command::NextTab);
    let tab = s.tab;
    let selection = s.selection;
    let d = s.loop_phase(100);
    assert_eq!(d, LoopDecision::RenderAndSleep);
    assert_eq!(s.tab, tab);
    assert_eq!(s.selection, selection);
    assert!(s.gate.is_playing());
}

#[test]
fn expired_gate_yields_to_input() {
    let mut s = state_with_two_repos();
    let d = s.loop_phase(800);
    assert_eq!(d, LoopDecision::AwaitInput);
    assert!(!s.gate.is_playing());
}

#[test]
fn gate_tick_turns_idle_exactly_at_the_duration() {
    let mut g = Gate::Playing { start_ms: 100, duration_ms: 800 };
    g.tick(899);
    assert!(g.is_playing());
    g.tick(900);
    assert!(!g.is_playing());
    let mut idle = Gate::Idle;
    idle.tick(5000);
    assert!(!idle.is_playing());
}
