//! The navigation state machine: the active tab, the row selection of the
//! visible list, and the transition rules between them, together with the
//! event loop's gate check.  Commands against an empty list or an absent
//! selection are no-ops, never errors.

use crate::aggregate::aggregate;
use crate::aggregate::aggregate_post;
use crate::aggregate::AggregatedView;
use crate::gate::Gate;
use crate::model::spec_html_url;
use crate::model::Issue;
use crate::model::Notification;
use vstd::prelude::*;

verus! {

/// The three top-level views, cyclic with wraparound.
#[derive(Clone, Copy, Debug, PartialEq, Eq, Structural)]
pub enum Tab {
    Notifications,
    Issues,
    PullRequests,
}

/// The tab that follows `t`: notifications, issues, pull requests, and
/// around again.
pub open spec fn spec_next_tab(t: Tab) -> Tab {
    match t {
        Tab::Notifications => Tab::Issues,
        Tab::Issues => Tab::PullRequests,
        Tab::PullRequests => Tab::Notifications,
    }
}

impl Tab {
    pub fn next(self) -> (r: Tab)
        ensures
            r == spec_next_tab(self),
    {
        match self {
            Tab::Notifications => Tab::Issues,
            Tab::Issues => Tab::PullRequests,
            Tab::PullRequests => Tab::Notifications,
        }
    }
}

/// Advancing the tab three times returns to the starting tab, whichever
/// tab that was.
pub proof fn lemma_tab_cycle(t: Tab)
    ensures
        spec_next_tab(spec_next_tab(spec_next_tab(t))) == t,
{
}

/// An abstract input command; a front end maps its own keys onto these.
#[derive(Clone, Copy, Debug, PartialEq, Eq, Structural)]
pub enum Command {
    SelectNext,
    SelectPrevious,
    NextTab,
    Activate,
    Quit,
}

/// An effect the caller must perform outside the state machine.
#[derive(Debug, PartialEq, Eq)]
pub enum ExternalAction {
    OpenUrl(String),
}

/// The dashboard's interactive state: read-only snapshots of the fetched
/// collections, the two grouped views derived from them, and the
/// navigation state proper.
#[derive(Debug)]
#[verifier::ext_equal]
pub struct State {
    pub running: bool,
    pub tab: Tab,
    pub selection: Option<usize>,
    pub gate: Gate,
    pub created_issues: Vec<Issue>,
    pub assigned_issues: Vec<Issue>,
    pub created_prs: Vec<Issue>,
    pub assigned_prs: Vec<Issue>,
    pub notifications: Vec<Notification>,
    pub issues_view: AggregatedView,
    pub prs_view: AggregatedView,
}

impl State {
    /// Length of the left pane's list were `t` the active tab: the
    /// notification list, or the repository list of the matching view.
    pub open spec fn pane_len_at(self, t: Tab) -> nat {
        match t {
            Tab::Notifications => self.notifications@.len(),
            Tab::Issues => self.issues_view.groups@.len(),
            Tab::PullRequests => self.prs_view.groups@.len(),
        }
    }

    /// Length of the active tab's left-pane list.
    pub open spec fn active_len(self) -> nat {
        self.pane_len_at(self.tab)
    }

    /// The selection indexes the active list, and is absent exactly when
    /// that list is empty.
    pub open spec fn selection_ok(self) -> bool {
        match self.selection {
            Some(i) => i < self.active_len(),
            None => self.active_len() == 0,
        }
    }

    /// The two grouped views are exactly the aggregation of the
    /// snapshots: the issue snapshots on the issues tab, the pull-request
    /// snapshots on the pull-request tab.
    pub open spec fn views_ok(self) -> bool {
        &&& aggregate_post(
            self.issues_view,
            self.created_issues@,
            self.assigned_issues@,
            Seq::empty(),
            Seq::empty(),
        )
        &&& aggregate_post(
            self.prs_view,
            Seq::empty(),
            Seq::empty(),
            self.created_prs@,
            self.assigned_prs@,
        )
    }

    /// The state machine's invariant.
    pub open spec fn wf(self) -> bool {
        self.views_ok() && self.selection_ok()
    }

    /// Build the dashboard state from the fetched snapshots.  The initial
    /// tab shows the notifications with the first row (if any) selected,
    /// and the transition gate starts playing an effect of `effect_ms`
    /// milliseconds from `now_ms`.
    pub fn new(
        created_issues: Vec<Issue>,
        assigned_issues: Vec<Issue>,
        created_prs: Vec<Issue>,
        assigned_prs: Vec<Issue>,
        notifications: Vec<Notification>,
        now_ms: u64,
        effect_ms: u64,
    ) -> (s: State)
        ensures
            s.wf(),
            s.running,
            s.tab == Tab::Notifications,
            s.gate == (Gate::Playing { start_ms: now_ms, duration_ms: effect_ms }),
            s.selection == (if notifications@.len() > 0 {
                Some(0usize)
            } else {
                None::<usize>
            }),
            s.created_issues == created_issues,
            s.assigned_issues == assigned_issues,
            s.created_prs == created_prs,
            s.assigned_prs == assigned_prs,
            s.notifications == notifications,
    {
        let empty: Vec<Issue> = Vec::new();
        proof {
            assert(empty@ =~= Seq::<Issue>::empty());
        }
        let issues_view = aggregate(&created_issues, &assigned_issues, &empty, &empty);
        let prs_view = aggregate(&empty, &empty, &created_prs, &assigned_prs);
        let selection: Option<usize> = if notifications.len() > 0 {
            Some(0)
        } else {
            None
        };
        State {
            running: true,
            tab: Tab::Notifications,
            selection,
            gate: Gate::Playing { start_ms: now_ms, duration_ms: effect_ms },
            created_issues,
            assigned_issues,
            created_prs,
            assigned_prs,
            notifications,
            issues_view,
            prs_view,
        }
    }

    /// The state after one command: row movement saturates at the list's
    /// ends, the tab advance resets the selection for the new list, quit
    /// lowers the running flag, and activation changes nothing.
    pub open spec fn spec_apply_state(self, cmd: Command) -> State {
        match cmd {
            Command::SelectNext => State {
                selection: match self.selection {
                    Some(i) => if i + 1 < self.active_len() {
                        Some((i + 1) as usize)
                    } else {
                        Some(i)
                    },
                    None => None,
                },
                ..self
            },
            Command::SelectPrevious => State {
                selection: match self.selection {
                    Some(i) => if i > 0 {
                        Some((i - 1) as usize)
                    } else {
                        Some(i)
                    },
                    None => None,
                },
                ..self
            },
            Command::NextTab => State {
                tab: spec_next_tab(self.tab),
                selection: if self.pane_len_at(spec_next_tab(self.tab)) > 0 {
                    Some(0usize)
                } else {
                    None
                },
                ..self
            },
            Command::Activate => self,
            Command::Quit => State { running: false, ..self },
        }
    }

    /// The link Activate opens: the derived URL of the selected
    /// notification when the notifications tab is active and a row is
    /// selected; otherwise nothing.
    pub open spec fn spec_activate_url(self) -> Option<Seq<char>> {
        match (self.tab, self.selection) {
            (Tab::Notifications, Some(i)) => if i < self.notifications@.len() {
                Some(spec_html_url(self.notifications@[i as int].subject.url@))
            } else {
                None
            },
            _ => None,
        }
    }

    fn active_len_exec(&self) -> (n: usize)
        ensures
            n == self.active_len(),
    {
        match self.tab {
            Tab::Notifications => self.notifications.len(),
            Tab::Issues => self.issues_view.groups.len(),
            Tab::PullRequests => self.prs_view.groups.len(),
        }
    }

    /// Apply one command to the state machine and hand back the external
    /// effect it owes, if any.
    pub fn apply(&mut self, cmd: Command) -> (action: Option<ExternalAction>)
        requires
            old(self).wf(),
        ensures
            *final(self) == old(self).spec_apply_state(cmd),
            final(self).wf(),
            action_ok(action, *old(self), cmd),
    {
        let action: Option<ExternalAction> = match cmd {
            Command::SelectNext => {
                let n = self.active_len_exec();
                match self.selection {
                    Some(i) => {
                        if i + 1 < n {
                            self.selection = Some(i + 1);
                        }
                    },
                    None => {},
                }
                None
            },
            Command::SelectPrevious => {
                match self.selection {
                    Some(i) => {
                        if i > 0 {
                            self.selection = Some(i - 1);
                        }
                    },
                    None => {},
                }
                None
            },
            Command::NextTab => {
                self.tab = self.tab.next();
                let n = self.active_len_exec();
                self.selection = if n > 0 {
                    Some(0)
                } else {
                    None
                };
                None
            },
            Command::Activate => {
                match self.tab {
                    Tab::Notifications => {
                        match self.selection {
                            Some(i) => {
                                let url = self.notifications[i].html_url();
                                Some(ExternalAction::OpenUrl(url))
                            },
                            None => None,
                        }
                    },
                    _ => None,
                }
            },
            Command::Quit => {
                self.running = false;
                None
            },
        };
        proof {
            assert(*self =~= old(self).spec_apply_state(cmd));
        }
        action
    }
}

/// Whether `action` is what `cmd` owes from state `s`: Activate on a
/// selected notification yields its derived link; nothing else yields an
/// action.
pub open spec fn action_ok(action: Option<ExternalAction>, s: State, cmd: Command) -> bool {
    match cmd {
        Command::Activate => match s.spec_activate_url() {
            Some(u) => match action {
                Some(ExternalAction::OpenUrl(x)) => x@ == u,
                _ => false,
            },
            None => action is None,
        },
        _ => action is None,
    }
}

/// What the event loop should do next.
#[derive(Clone, Copy, Debug, PartialEq, Eq, Structural)]
pub enum LoopDecision {
    /// The running flag is down: leave the loop.
    Stop,
    /// A transition effect is playing: redraw, sleep briefly, check again.
    /// No input
    /// is consumed, so pending events stay in the input source.
    RenderAndSleep,
    /// Wait for the next input event and apply its command.
    AwaitInput,
}

/// The decision the loop owes at time `now_ms`, once the transition
/// gate has advanced.
pub open spec fn spec_loop_decision(s: State, now_ms: u64) -> LoopDecision {
    if !s.running {
        LoopDecision::Stop
    } else if s.gate.spec_tick(now_ms).spec_is_playing() {
        LoopDecision::RenderAndSleep
    } else {
        LoopDecision::AwaitInput
    }
}

impl State {
    /// The event loop's gate check at time `now_ms`: advance the transition
    /// gate by one tick and decide what to do next.  While the effect plays,
    /// input stays unread and no command is applied: everything but the
    /// gate is left exactly as it was.
    pub fn loop_phase(&mut self, now_ms: u64) -> (d: LoopDecision)
        ensures
            *final(self) == (State { gate: old(self).gate.spec_tick(now_ms), ..*old(self) }),
            d == spec_loop_decision(*old(self), now_ms),
            final(self).wf() == old(self).wf(),
    {
        self.gate.tick(now_ms);
        let d = if !self.running {
            LoopDecision::Stop
        } else if self.gate.is_playing() {
            LoopDecision::RenderAndSleep
        } else {
            LoopDecision::AwaitInput
        };
        proof {
            assert(*self =~= (State { gate: old(self).gate.spec_tick(now_ms), ..*old(self) }));
        }
        d
    }
}

/// The content of the right pane: the full, unfiltered item list of the
/// repository the selection highlights; empty on the notifications tab
/// and when nothing is selected.
pub open spec fn spec_items_shown(s: State) -> Seq<Issue> {
    match (s.tab, s.selection) {
        (Tab::Issues, Some(i)) => if i < s.issues_view.groups@.len() {
            s.issues_view.groups@[i as int].items@
        } else {
            Seq::empty()
        },
        (Tab::PullRequests, Some(i)) => if i < s.prs_view.groups@.len() {
            s.prs_view.groups@[i as int].items@
        } else {
            Seq::empty()
        },
        _ => Seq::empty(),
    }
}

impl State {
    /// The items of the repository the selection highlights.
    pub fn items_shown(&self) -> (out: Vec<Issue>)
        ensures
            out@ == spec_items_shown(*self),
    {
        match (self.tab, self.selection) {
            (Tab::Issues, Some(i)) => {
                if i < self.issues_view.groups.len() {
                    crate::aggregate::clone_items(&self.issues_view.groups[i].items)
                } else {
                    Vec::new()
                }
            },
            (Tab::PullRequests, Some(i)) => {
                if i < self.prs_view.groups.len() {
                    crate::aggregate::clone_items(&self.prs_view.groups[i].items)
                } else {
                    Vec::new()
                }
            },
            _ => Vec::new(),
        }
    }
}

/// Gate exclusivity: while the transition gate plays, the loop's decision
/// is never to read input, so no command reaches the state machine — and
/// `loop_phase` itself changes nothing besides the transition gate,
/// whatever the decision.
pub proof fn lemma_playing_gate_withholds_input(s: State, now_ms: u64)
    requires
        s.gate.spec_tick(now_ms).spec_is_playing(),
    ensures
        spec_loop_decision(s, now_ms) != LoopDecision::AwaitInput,
{
}

/// Fold a command sequence through the state machine, states only.
pub open spec fn spec_apply_seq(s: State, cmds: Seq<Command>) -> State
    decreases cmds.len(),
{
    if cmds.len() == 0 {
        s
    } else {
        spec_apply_seq(s.spec_apply_state(cmds[0]), cmds.skip(1))
    }
}

/// One command preserves the state machine's invariant.
pub proof fn lemma_apply_preserves_wf(s: State, cmd: Command)
    requires
        s.wf(),
    ensures
        s.spec_apply_state(cmd).wf(),
{
}

/// Selection clamping: any sequence of row-movement commands keeps the
/// selection inside the active list's bounds, and keeps it absent when
/// that list is empty; the active tab and its list length never change
/// under these commands.
pub proof fn lemma_selection_clamped(s: State, cmds: Seq<Command>)
    requires
        s.wf(),
        forall|i: int|
            0 <= i < cmds.len() ==> (#[trigger] cmds[i]) == Command::SelectNext || cmds[i]
                == Command::SelectPrevious,
    ensures
        spec_apply_seq(s, cmds).wf(),
        spec_apply_seq(s, cmds).tab == s.tab,
        spec_apply_seq(s, cmds).active_len() == s.active_len(),
        s.active_len() == 0 ==> spec_apply_seq(s, cmds).selection is None,
    decreases cmds.len(),
{
    if cmds.len() > 0 {
        let s1 = s.spec_apply_state(cmds[0]);
        lemma_apply_preserves_wf(s, cmds[0]);
        assert forall|i: int|
            0 <= i < cmds.skip(1).len() implies (#[trigger] cmds.skip(1)[i])
            == Command::SelectNext || cmds.skip(1)[i] == Command::SelectPrevious by {
            assert(cmds.skip(1)[i] == cmds[i + 1]);
        }
        lemma_selection_clamped(s1, cmds.skip(1));
    }
}

} // verus!

