//! The agent panel of the client sidebar: which agent rows it shows, in
//! which order, and what each row refers to.
//!
//! The panel reads a snapshot of the session (workspaces, tabs, panes,
//! detected agents and the read-only remote presence rows) and decides the
//! rows; drawing them is left to the caller.
use vstd::prelude::*;
use crate::text::{clone_opt_string, owned, push_str, str_eq};
use crate::timestamp::{rfc3339_seconds, relative_label, remote_relative_time_at, unix_now};
use crate::layout::Rect;

verus! {

// ---------------------------------------------------------------------
// Data
// ---------------------------------------------------------------------

/// Status of a detected agent.
#[derive(PartialEq, Eq, Structural, Clone, Copy, Debug)]
pub enum AgentStatus {
    Idle,
    Working,
    Blocked,
    Done,
    Unknown,
}

/// How local agents are ordered.
#[derive(PartialEq, Eq, Structural, Clone, Copy, Debug)]
pub enum AgentPanelSort {
    /// In the snapshot's order (grouped by space).
    Spaces,
    /// Highest priority status first, most recent change first.
    Priority,
}

/// Which agents the panel shows.
#[derive(PartialEq, Eq, Structural, Clone, Copy, Debug)]
pub enum AgentPanelScope {
    All,
    /// Only those of the workspace the client is looking at.
    ActiveWorkspace,
}

/// Whether remote presence rows are shown.
#[derive(PartialEq, Eq, Structural, Clone, Copy, Debug)]
pub enum AgentPanelRemotes {
    Show,
    Hide,
}

/// The rank of each agent status in the priority sort (higher first).
#[derive(Clone, Copy, Debug)]
pub struct StatusRanks {
    pub idle: u32,
    pub working: u32,
    pub blocked: u32,
    pub done: u32,
    pub unknown: u32,
}

/// The panel settings that decide rows and header.
pub struct PanelConfig {
    pub agent_panel_sort: AgentPanelSort,
    pub status_ranks: StatusRanks,
    pub agent_panel_scope: AgentPanelScope,
    pub agent_panel_remotes: AgentPanelRemotes,
    pub mouse_capture: bool,
}

/// A detected agent in a local pane.
pub struct ShellAgent {
    pub pane_id: String,
    pub workspace_id: String,
    pub tab_id: String,
    pub focused: bool,
    pub agent_status: AgentStatus,
    pub state_change_seq: u64,
    pub display_agent: Option<String>,
    pub name: Option<String>,
    pub agent: Option<String>,
    pub title: Option<String>,
    /// The agent's own word for a status; of two for one status the later
    /// counts.
    pub state_labels: Vec<(AgentStatus, String)>,
    /// Display tokens the agent reports, by key.
    pub tokens: Vec<(String, String)>,
    pub terminal_title: Option<String>,
    pub terminal_title_stripped: Option<String>,
}

pub struct ShellPane {
    pub pane_id: String,
    pub workspace_id: String,
    pub tab_id: String,
    pub focused: bool,
    pub label: Option<String>,
}

pub struct ShellWorkspace {
    pub workspace_id: String,
    pub label: String,
    pub focused: bool,
}

pub struct ShellTab {
    pub tab_id: String,
    pub workspace_id: String,
    pub label: String,
    pub number: u64,
}

/// A remote presence row as the client receives it.
pub struct ShellRemoteAgent {
    pub agent_id: String,
    pub host: Option<String>,
    pub project: String,
    pub lane: String,
    pub status: String,
    pub user: String,
    pub cwd: Option<String>,
    pub process_alive: bool,
    pub stream_alive: bool,
    pub last_seen_ts: Option<String>,
    pub session_memo: Option<String>,
    pub context_usage: Option<String>,
}

/// What the client knows of the session when it draws the sidebar.
pub struct ShellSnapshot {
    /// Set when the panel shows a named agent view instead of all agents.
    pub agent_view_label: Option<String>,
    /// Pane ids in the order of the agent view.
    pub agent_order: Vec<String>,
    pub agents: Vec<ShellAgent>,
    pub panes: Vec<ShellPane>,
    pub workspaces: Vec<ShellWorkspace>,
    pub tabs: Vec<ShellTab>,
    pub focused_workspace_id: Option<String>,
    pub focused_pane_id: Option<String>,
    pub remote_agents: Vec<ShellRemoteAgent>,
}

// ---------------------------------------------------------------------
// Searching
// ---------------------------------------------------------------------

/// The first index of `s` whose element satisfies `p`.
pub open spec fn first_index<T>(s: Seq<T>, p: spec_fn(T) -> bool) -> Option<int>
    decreases s.len(),
{
    if s.len() == 0 {
        None
    } else if p(s[0]) {
        Some(0)
    } else {
        match first_index(s.drop_first(), p) {
            Some(i) => Some(i + 1),
            None => None,
        }
    }
}

/// `first_index` is the least index whose element satisfies the predicate.
pub proof fn lemma_first_index<T>(s: Seq<T>, p: spec_fn(T) -> bool, r: Option<int>)
    requires
        match r {
            Some(i) => 0 <= i < s.len() && p(s[i]) && forall|k: int| 0 <= k < i ==> !p(s[k]),
            None => forall|k: int| 0 <= k < s.len() ==> !p(s[k]),
        },
    ensures
        first_index(s, p) == r,
    decreases s.len(),
{
    if s.len() > 0 {
        let rest = s.drop_first();
        match r {
            Some(i) => {
                if i > 0 {
                    assert(!p(s[0]));
                    assert forall|k: int| 0 <= k < i - 1 implies !p(rest[k]) by {
                        assert(rest[k] == s[k + 1]);
                    }
                    assert(rest[i - 1] == s[i]);
                    lemma_first_index(rest, p, Some(i - 1));
                }
            },
            None => {
                assert(!p(s[0]));
                assert forall|k: int| 0 <= k < rest.len() implies !p(rest[k]) by {
                    assert(rest[k] == s[k + 1]);
                }
                lemma_first_index(rest, p, None);
            },
        }
    }
}

pub open spec fn agent_is_focused() -> spec_fn(ShellAgent) -> bool {
    |a: ShellAgent| a.focused
}

pub open spec fn agent_has_pane(id: Seq<char>) -> spec_fn(ShellAgent) -> bool {
    |a: ShellAgent| a.pane_id@ == id
}

pub open spec fn pane_has_id(id: Seq<char>) -> spec_fn(ShellPane) -> bool {
    |p: ShellPane| p.pane_id@ == id
}

pub open spec fn workspace_is_focused() -> spec_fn(ShellWorkspace) -> bool {
    |w: ShellWorkspace| w.focused
}

pub open spec fn workspace_has_id(id: Seq<char>) -> spec_fn(ShellWorkspace) -> bool {
    |w: ShellWorkspace| w.workspace_id@ == id
}

pub open spec fn tab_has_id(id: Seq<char>) -> spec_fn(ShellTab) -> bool {
    |t: ShellTab| t.tab_id@ == id
}

pub open spec fn pane_in_tab(ws: Seq<char>, tab: Seq<char>) -> spec_fn(ShellPane) -> bool {
    |p: ShellPane| p.workspace_id@ == ws && p.tab_id@ == tab
}

pub open spec fn focused_pane_in_tab(ws: Seq<char>, tab: Seq<char>) -> spec_fn(ShellPane) -> bool {
    |p: ShellPane| p.workspace_id@ == ws && p.tab_id@ == tab && p.focused
}

fn find_focused_agent(agents: &Vec<ShellAgent>) -> (r: Option<usize>)
    ensures
        match r {
            Some(i) => first_index(agents@, agent_is_focused()) == Some(i as int) && i < agents.len(),
            None => first_index(agents@, agent_is_focused()) is None,
        },
{
    let mut i: usize = 0;
    while i < agents.len()
        invariant
            i <= agents.len(),
            forall|k: int| 0 <= k < i ==> !agent_is_focused()(#[trigger] agents@[k]),
        decreases agents.len() - i,
    {
        if agents[i].focused {
            proof {
                lemma_first_index(agents@, agent_is_focused(), Some(i as int));
            }
            return Some(i);
        }
        i = i + 1;
    }
    proof {
        lemma_first_index(agents@, agent_is_focused(), None);
    }
    None
}

fn find_agent_by_pane(agents: &Vec<ShellAgent>, id: &str) -> (r: Option<usize>)
    ensures
        match r {
            Some(i) => first_index(agents@, agent_has_pane(id@)) == Some(i as int) && i < agents.len(),
            None => first_index(agents@, agent_has_pane(id@)) is None,
        },
{
    let mut i: usize = 0;
    while i < agents.len()
        invariant
            i <= agents.len(),
            forall|k: int| 0 <= k < i ==> !agent_has_pane(id@)(#[trigger] agents@[k]),
        decreases agents.len() - i,
    {
        if str_eq(agents[i].pane_id.as_str(), id) {
            proof {
                lemma_first_index(agents@, agent_has_pane(id@), Some(i as int));
            }
            return Some(i);
        }
        i = i + 1;
    }
    proof {
        lemma_first_index(agents@, agent_has_pane(id@), None);
    }
    None
}

fn find_pane_by_id(panes: &Vec<ShellPane>, id: &str) -> (r: Option<usize>)
    ensures
        match r {
            Some(i) => first_index(panes@, pane_has_id(id@)) == Some(i as int) && i < panes.len(),
            None => first_index(panes@, pane_has_id(id@)) is None,
        },
{
    let mut i: usize = 0;
    while i < panes.len()
        invariant
            i <= panes.len(),
            forall|k: int| 0 <= k < i ==> !pane_has_id(id@)(#[trigger] panes@[k]),
        decreases panes.len() - i,
    {
        if str_eq(panes[i].pane_id.as_str(), id) {
            proof {
                lemma_first_index(panes@, pane_has_id(id@), Some(i as int));
            }
            return Some(i);
        }
        i = i + 1;
    }
    proof {
        lemma_first_index(panes@, pane_has_id(id@), None);
    }
    None
}

fn find_focused_workspace(workspaces: &Vec<ShellWorkspace>) -> (r: Option<usize>)
    ensures
        match r {
            Some(i) => first_index(workspaces@, workspace_is_focused()) == Some(i as int) && i < workspaces.len(),
            None => first_index(workspaces@, workspace_is_focused()) is None,
        },
{
    let mut i: usize = 0;
    while i < workspaces.len()
        invariant
            i <= workspaces.len(),
            forall|k: int| 0 <= k < i ==> !workspace_is_focused()(#[trigger] workspaces@[k]),
        decreases workspaces.len() - i,
    {
        if workspaces[i].focused {
            proof {
                lemma_first_index(workspaces@, workspace_is_focused(), Some(i as int));
            }
            return Some(i);
        }
        i = i + 1;
    }
    proof {
        lemma_first_index(workspaces@, workspace_is_focused(), None);
    }
    None
}

fn find_workspace_by_id(workspaces: &Vec<ShellWorkspace>, id: &str) -> (r: Option<usize>)
    ensures
        match r {
            Some(i) => first_index(workspaces@, workspace_has_id(id@)) == Some(i as int) && i < workspaces.len(),
            None => first_index(workspaces@, workspace_has_id(id@)) is None,
        },
{
    let mut i: usize = 0;
    while i < workspaces.len()
        invariant
            i <= workspaces.len(),
            forall|k: int| 0 <= k < i ==> !workspace_has_id(id@)(#[trigger] workspaces@[k]),
        decreases workspaces.len() - i,
    {
        if str_eq(workspaces[i].workspace_id.as_str(), id) {
            proof {
                lemma_first_index(workspaces@, workspace_has_id(id@), Some(i as int));
            }
            return Some(i);
        }
        i = i + 1;
    }
    proof {
        lemma_first_index(workspaces@, workspace_has_id(id@), None);
    }
    None
}

fn find_tab_by_id(tabs: &Vec<ShellTab>, id: &str) -> (r: Option<usize>)
    ensures
        match r {
            Some(i) => first_index(tabs@, tab_has_id(id@)) == Some(i as int) && i < tabs.len(),
            None => first_index(tabs@, tab_has_id(id@)) is None,
        },
{
    let mut i: usize = 0;
    while i < tabs.len()
        invariant
            i <= tabs.len(),
            forall|k: int| 0 <= k < i ==> !tab_has_id(id@)(#[trigger] tabs@[k]),
        decreases tabs.len() - i,
    {
        if str_eq(tabs[i].tab_id.as_str(), id) {
            proof {
                lemma_first_index(tabs@, tab_has_id(id@), Some(i as int));
            }
            return Some(i);
        }
        i = i + 1;
    }
    proof {
        lemma_first_index(tabs@, tab_has_id(id@), None);
    }
    None
}

// ---------------------------------------------------------------------
// Scope
// ---------------------------------------------------------------------

/// The workspace the "here" scope filters by: the client's focused
/// workspace, else that of the first focused agent, else that of the
/// focused pane, else the first focused workspace.
pub open spec fn spec_scope_workspace_id(s: ShellSnapshot) -> Option<Seq<char>> {
    match s.focused_workspace_id {
        Some(w) => Some(w@),
        None => match first_index(s.agents@, agent_is_focused()) {
            Some(i) => Some(s.agents@[i].workspace_id@),
            None => {
                let by_pane = match s.focused_pane_id {
                    Some(pid) => match first_index(s.panes@, pane_has_id(pid@)) {
                        Some(j) => Some(s.panes@[j].workspace_id@),
                        None => None,
                    },
                    None => None,
                };
                match by_pane {
                    Some(w) => Some(w),
                    None => match first_index(s.workspaces@, workspace_is_focused()) {
                        Some(k) => Some(s.workspaces@[k].workspace_id@),
                        None => None,
                    },
                }
            },
        },
    }
}

/// Workspace used by the "here" agent-panel scope.
///
/// Per-client shell location can lag behind the focused pane on multi-client
/// hosts, so fall back to the focused agent/pane workspace before filtering.
pub fn effective_scope_workspace_id(snapshot: &ShellSnapshot) -> (id: Option<&str>)
    ensures
        match id {
            Some(w) => spec_scope_workspace_id(*snapshot) == Some(w@),
            None => spec_scope_workspace_id(*snapshot) is None,
        },
{
    if let Some(w) = &snapshot.focused_workspace_id {
        return Some(w.as_str());
    }
    if let Some(i) = find_focused_agent(&snapshot.agents) {
        return Some(snapshot.agents[i].workspace_id.as_str());
    }
    if let Some(pid) = &snapshot.focused_pane_id {
        if let Some(j) = find_pane_by_id(&snapshot.panes, pid.as_str()) {
            return Some(snapshot.panes[j].workspace_id.as_str());
        }
    }
    if let Some(k) = find_focused_workspace(&snapshot.workspaces) {
        return Some(snapshot.workspaces[k].workspace_id.as_str());
    }
    None
}

/// Label of the scope workspace: that of the first workspace with its id.
pub open spec fn spec_scope_workspace_label(s: ShellSnapshot) -> Option<Seq<char>> {
    match spec_scope_workspace_id(s) {
        Some(w) => match first_index(s.workspaces@, workspace_has_id(w)) {
            Some(k) => Some(s.workspaces@[k].label@),
            None => None,
        },
        None => None,
    }
}

pub fn effective_scope_workspace_label(snapshot: &ShellSnapshot) -> (label: Option<&str>)
    ensures
        match label {
            Some(l) => spec_scope_workspace_label(*snapshot) == Some(l@),
            None => spec_scope_workspace_label(*snapshot) is None,
        },
{
    match effective_scope_workspace_id(snapshot) {
        Some(w) => match find_workspace_by_id(&snapshot.workspaces, w) {
            Some(k) => Some(snapshot.workspaces[k].label.as_str()),
            None => None,
        },
        None => None,
    }
}

/// A local agent in workspace `ws` is shown under `scope`.
pub open spec fn spec_agent_matches_scope(
    s: ShellSnapshot,
    ws: Seq<char>,
    scope: AgentPanelScope,
) -> bool {
    scope == AgentPanelScope::All || match spec_scope_workspace_id(s) {
        Some(w) => ws == w,
        None => true,
    }
}

pub fn agent_matches_scope(
    snapshot: &ShellSnapshot,
    agent_workspace_id: &str,
    scope: AgentPanelScope,
) -> (shown: bool)
    ensures
        shown == spec_agent_matches_scope(*snapshot, agent_workspace_id@, scope),
{
    if scope == AgentPanelScope::All {
        return true;
    }
    match effective_scope_workspace_id(snapshot) {
        Some(w) => str_eq(agent_workspace_id, w),
        None => true,
    }
}

/// A remote agent of `project` is shown under `scope`: its project names
/// the scope workspace.
pub open spec fn spec_remote_matches_scope(
    s: ShellSnapshot,
    project: Seq<char>,
    scope: AgentPanelScope,
) -> bool {
    scope == AgentPanelScope::All || match spec_scope_workspace_label(s) {
        Some(l) => project == l,
        None => true,
    }
}

pub fn remote_presence_matches_scope(
    snapshot: &ShellSnapshot,
    project: &str,
    scope: AgentPanelScope,
) -> (shown: bool)
    ensures
        shown == spec_remote_matches_scope(*snapshot, project@, scope),
{
    if scope == AgentPanelScope::All {
        return true;
    }
    match effective_scope_workspace_label(snapshot) {
        Some(l) => str_eq(project, l),
        None => true,
    }
}

/// Some live remote agent runs `lane` of `project`.
pub open spec fn spec_live_presence_covers_lane(
    s: ShellSnapshot,
    project: Seq<char>,
    lane: Seq<char>,
) -> bool {
    exists|i: int|
        0 <= i < s.remote_agents@.len() && #[trigger] s.remote_agents@[i].process_alive
            && s.remote_agents@[i].project@ == project && s.remote_agents@[i].lane@ == lane
}

pub fn live_presence_covers_lane(snapshot: &ShellSnapshot, project: &str, lane: &str) -> (covered:
    bool)
    ensures
        covered == spec_live_presence_covers_lane(*snapshot, project@, lane@),
{
    let agents = &snapshot.remote_agents;
    let mut i: usize = 0;
    while i < agents.len()
        invariant
            i <= agents.len(),
            agents == &snapshot.remote_agents,
            forall|k: int|
                0 <= k < i ==> !(#[trigger] agents@[k].process_alive && agents@[k].project@
                    == project@ && agents@[k].lane@ == lane@),
        decreases agents.len() - i,
    {
        let a = &agents[i];
        if a.process_alive && str_eq(a.project.as_str(), project) && str_eq(a.lane.as_str(), lane) {
            return true;
        }
        i = i + 1;
    }
    false
}

/// This server already has a tab named `lane` in a workspace named
/// `project`.
pub open spec fn spec_workspace_has_lane_tab(
    s: ShellSnapshot,
    project: Seq<char>,
    lane: Seq<char>,
) -> bool {
    exists|w: int, t: int|
        0 <= w < s.workspaces@.len() && 0 <= t < s.tabs@.len() && #[trigger] s.workspaces@[w].label@
            == project && #[trigger] s.tabs@[t].workspace_id@ == s.workspaces@[w].workspace_id@
            && s.tabs@[t].label@ == lane
}

/// True when this server already has a workspace tab named for the lane.
/// Fleet lanes render as local tab rows, not presence rows.
pub fn workspace_has_lane_tab(snapshot: &ShellSnapshot, project: &str, lane: &str) -> (has: bool)
    ensures
        has == spec_workspace_has_lane_tab(*snapshot, project@, lane@),
{
    let workspaces = &snapshot.workspaces;
    let tabs = &snapshot.tabs;
    let mut w: usize = 0;
    while w < workspaces.len()
        invariant
            w <= workspaces.len(),
            workspaces == &snapshot.workspaces,
            tabs == &snapshot.tabs,
            forall|a: int, b: int|
                0 <= a < w && 0 <= b < tabs@.len() ==> !(#[trigger] workspaces@[a].label@
                    == project@ && #[trigger] tabs@[b].workspace_id@ == workspaces@[a].workspace_id@
                    && tabs@[b].label@ == lane@),
        decreases workspaces.len() - w,
    {
        let ws = &workspaces[w];
        if str_eq(ws.label.as_str(), project) {
            let mut t: usize = 0;
            while t < tabs.len()
                invariant
                    t <= tabs.len(),
                    w < workspaces.len(),
                    workspaces == &snapshot.workspaces,
                    tabs == &snapshot.tabs,
                    ws == &workspaces@[w as int],
                    ws.label@ == project@,
                    forall|b: int|
                        0 <= b < t ==> !(#[trigger] tabs@[b].workspace_id@ == ws.workspace_id@
                            && tabs@[b].label@ == lane@),
                decreases tabs.len() - t,
            {
                let tab = &tabs[t];
                if str_eq(tab.workspace_id.as_str(), ws.workspace_id.as_str()) && str_eq(
                    tab.label.as_str(),
                    lane,
                ) {
                    assert(workspaces@[w as int].label@ == project@ && tabs@[t as int].workspace_id@
                        == workspaces@[w as int].workspace_id@ && tabs@[t as int].label@ == lane@);
                    return true;
                }
                t = t + 1;
            }
        }
        w = w + 1;
    }
    false
}

/// The pane a tab's row stands for: its first focused pane, else its first
/// pane.
pub open spec fn spec_primary_pane_for_tab(s: ShellSnapshot, ws: Seq<char>, tab: Seq<char>) -> Option<
    int,
> {
    match first_index(s.panes@, focused_pane_in_tab(ws, tab)) {
        Some(i) => Some(i),
        None => first_index(s.panes@, pane_in_tab(ws, tab)),
    }
}

/// Index of the pane a tab's row stands for.
pub fn primary_pane_for_tab(snapshot: &ShellSnapshot, workspace_id: &str, tab_id: &str) -> (r:
    Option<usize>)
    ensures
        match r {
            Some(i) => spec_primary_pane_for_tab(*snapshot, workspace_id@, tab_id@) == Some(
                i as int,
            ),
            None => spec_primary_pane_for_tab(*snapshot, workspace_id@, tab_id@) is None,
        },
{
    let panes = &snapshot.panes;
    let mut first: Option<usize> = None;
    let mut i: usize = 0;
    while i < panes.len()
        invariant
            i <= panes.len(),
            panes == &snapshot.panes,
            forall|k: int|
                0 <= k < i ==> !focused_pane_in_tab(workspace_id@, tab_id@)(#[trigger] panes@[k]),
            match first {
                Some(f) => f < i && pane_in_tab(workspace_id@, tab_id@)(panes@[f as int])
                    && forall|k: int|
                    0 <= k < f ==> !pane_in_tab(workspace_id@, tab_id@)(#[trigger] panes@[k]),
                None => forall|k: int|
                    0 <= k < i ==> !pane_in_tab(workspace_id@, tab_id@)(#[trigger] panes@[k]),
            },
        decreases panes.len() - i,
    {
        let p = &panes[i];
        if str_eq(p.workspace_id.as_str(), workspace_id) && str_eq(p.tab_id.as_str(), tab_id) {
            if p.focused {
                proof {
                    lemma_first_index(
                        panes@,
                        focused_pane_in_tab(workspace_id@, tab_id@),
                        Some(i as int),
                    );
                }
                return Some(i);
            }
            if first.is_none() {
                first = Some(i);
            }
        }
        i = i + 1;
    }
    proof {
        lemma_first_index(panes@, focused_pane_in_tab(workspace_id@, tab_id@), None);
        match first {
            Some(f) => lemma_first_index(panes@, pane_in_tab(workspace_id@, tab_id@), Some(f as int)),
            None => lemma_first_index(panes@, pane_in_tab(workspace_id@, tab_id@), None),
        }
    }
    first
}

// ---------------------------------------------------------------------
// Labels
// ---------------------------------------------------------------------

pub open spec fn spec_scope_label(scope: AgentPanelScope) -> Seq<char> {
    match scope {
        AgentPanelScope::All => "all"@,
        AgentPanelScope::ActiveWorkspace => "here"@,
    }
}

pub fn agent_panel_scope_label(scope: AgentPanelScope) -> (label: &'static str)
    ensures
        label@ == spec_scope_label(scope),
{
    match scope {
        AgentPanelScope::All => "all",
        AgentPanelScope::ActiveWorkspace => "here",
    }
}

pub open spec fn spec_remotes_label(remotes: AgentPanelRemotes) -> Seq<char> {
    match remotes {
        AgentPanelRemotes::Show => "remotes"@,
        AgentPanelRemotes::Hide => "local"@,
    }
}

pub fn agent_panel_remotes_label(remotes: AgentPanelRemotes) -> (label: &'static str)
    ensures
        label@ == spec_remotes_label(remotes),
{
    match remotes {
        AgentPanelRemotes::Show => "remotes",
        AgentPanelRemotes::Hide => "local",
    }
}

pub open spec fn spec_sort_label(sort: AgentPanelSort) -> Seq<char> {
    match sort {
        AgentPanelSort::Spaces => "grpd"@,
        AgentPanelSort::Priority => "prio"@,
    }
}

pub fn agent_panel_sort_label(sort: AgentPanelSort) -> (label: &'static str)
    ensures
        label@ == spec_sort_label(sort),
{
    match sort {
        AgentPanelSort::Spaces => "grpd",
        AgentPanelSort::Priority => "prio",
    }
}

/// The header toggles tell the settings apart: each sort, scope and
/// remotes setting has a label of its own ("grpd" and "prio", "all" and
/// "here", "remotes" and "local").
pub proof fn lemma_toggle_labels_tell_settings_apart(
    s1: AgentPanelSort,
    s2: AgentPanelSort,
    c1: AgentPanelScope,
    c2: AgentPanelScope,
    r1: AgentPanelRemotes,
    r2: AgentPanelRemotes,
)
    ensures
        spec_sort_label(s1) == spec_sort_label(s2) <==> s1 == s2,
        spec_scope_label(c1) == spec_scope_label(c2) <==> c1 == c2,
        spec_remotes_label(r1) == spec_remotes_label(r2) <==> r1 == r2,
        spec_sort_label(AgentPanelSort::Priority) == "prio"@,
        spec_sort_label(AgentPanelSort::Spaces) == "grpd"@,
{
    reveal_strlit("grpd");
    reveal_strlit("prio");
    reveal_strlit("all");
    reveal_strlit("here");
    reveal_strlit("remotes");
    reveal_strlit("local");
    assert("grpd"@[0] != "prio"@[0]);
    assert("all"@.len() != "here"@.len());
    assert("remotes"@.len() != "local"@.len());
}

pub open spec fn spec_sidebar_status_text(status: AgentStatus) -> Seq<char> {
    match status {
        AgentStatus::Blocked => "blocked"@,
        AgentStatus::Done => "done"@,
        AgentStatus::Working => "working"@,
        _ => "idle"@,
    }
}

/// The state word the sidebar shows for a status.
pub fn sidebar_status_text(status: AgentStatus) -> (text: &'static str)
    ensures
        text@ == spec_sidebar_status_text(status),
{
    match status {
        AgentStatus::Blocked => "blocked",
        AgentStatus::Done => "done",
        AgentStatus::Working => "working",
        AgentStatus::Idle | AgentStatus::Unknown => "idle",
    }
}

/// The status a presence row's status word denotes.
pub open spec fn spec_remote_agent_status(status: Seq<char>) -> AgentStatus {
    if status == "working"@ {
        AgentStatus::Working
    } else if status == "blocked"@ {
        AgentStatus::Blocked
    } else if status == "done"@ {
        AgentStatus::Done
    } else {
        AgentStatus::Idle
    }
}

pub fn remote_agent_status(status: &str) -> (s: AgentStatus)
    ensures
        s == spec_remote_agent_status(status@),
{
    if str_eq(status, "working") {
        AgentStatus::Working
    } else if str_eq(status, "blocked") {
        AgentStatus::Blocked
    } else if str_eq(status, "done") {
        AgentStatus::Done
    } else {
        AgentStatus::Idle
    }
}

/// Presence project identity is the only stable kind signal on the
/// read-only feed: `herm` is the HRM fleet; project-user sessions are Pi.
pub open spec fn spec_remote_agent_kind(project: Seq<char>) -> Seq<char> {
    if project == "herm"@ {
        "HRM"@
    } else {
        "Pi"@
    }
}

pub fn remote_agent_kind(agent: &ShellRemoteAgent) -> (kind: &'static str)
    ensures
        kind@ == spec_remote_agent_kind(agent.project@),
{
    if str_eq(agent.project.as_str(), "herm") {
        "HRM"
    } else {
        "Pi"
    }
}

// ---------------------------------------------------------------------
// Agent order
// ---------------------------------------------------------------------

pub open spec fn spec_status_rank(ranks: StatusRanks, status: AgentStatus) -> u32 {
    match status {
        AgentStatus::Idle => ranks.idle,
        AgentStatus::Working => ranks.working,
        AgentStatus::Blocked => ranks.blocked,
        AgentStatus::Done => ranks.done,
        AgentStatus::Unknown => ranks.unknown,
    }
}

/// The rank of `status` in `ranks`.
pub fn status_rank(ranks: &StatusRanks, status: AgentStatus) -> (rank: u32)
    ensures
        rank == spec_status_rank(*ranks, status),
{
    match status {
        AgentStatus::Idle => ranks.idle,
        AgentStatus::Working => ranks.working,
        AgentStatus::Blocked => ranks.blocked,
        AgentStatus::Done => ranks.done,
        AgentStatus::Unknown => ranks.unknown,
    }
}

/// `a` is listed before `b` by the priority sort: higher rank of its
/// status, then more recent state change.
pub open spec fn ranks_before(ranks: StatusRanks, a: ShellAgent, b: ShellAgent) -> bool {
    let ra = spec_status_rank(ranks, a.agent_status);
    let rb = spec_status_rank(ranks, b.agent_status);
    ra > rb || (ra == rb && a.state_change_seq > b.state_change_seq)
}

/// `sorted` with `x` placed after every agent that it does not rank before.
pub open spec fn insert_by_rank(ranks: StatusRanks, sorted: Seq<ShellAgent>, x: ShellAgent) -> Seq<
    ShellAgent,
>
    decreases sorted.len(),
{
    if sorted.len() == 0 {
        seq![x]
    } else if ranks_before(ranks, x, sorted.last()) {
        insert_by_rank(ranks, sorted.drop_last(), x).push(sorted.last())
    } else {
        sorted.push(x)
    }
}

/// The stable sort of agents by descending (status rank, state change).
pub open spec fn sort_by_rank(ranks: StatusRanks, s: Seq<ShellAgent>) -> Seq<ShellAgent>
    decreases s.len(),
{
    if s.len() == 0 {
        Seq::empty()
    } else {
        insert_by_rank(ranks, sort_by_rank(ranks, s.drop_last()), s.last())
    }
}

pub open spec fn pane_ids(agents: Seq<ShellAgent>) -> Seq<Seq<char>> {
    agents.map_values(|a: ShellAgent| a.pane_id@)
}

/// The agent view's pane ids that belong to a detected agent, in view
/// order.
pub open spec fn present_view_ids(order: Seq<String>, agents: Seq<ShellAgent>) -> Seq<Seq<char>>
    decreases order.len(),
{
    if order.len() == 0 {
        Seq::empty()
    } else {
        let before = present_view_ids(order.drop_last(), agents);
        if first_index(agents, agent_has_pane(order.last()@)) is Some {
            before.push(order.last()@)
        } else {
            before
        }
    }
}

/// Pane ids of the local agents in panel order.
pub open spec fn spec_ordered_agent_pane_ids(
    s: ShellSnapshot,
    sort: AgentPanelSort,
    ranks: StatusRanks,
) -> Seq<Seq<char>> {
    if s.agent_view_label is Some {
        present_view_ids(s.agent_order@, s.agents@)
    } else if sort == AgentPanelSort::Priority {
        pane_ids(sort_by_rank(ranks, s.agents@))
    } else {
        pane_ids(s.agents@)
    }
}

pub open spec fn strings_view(v: Seq<String>) -> Seq<Seq<char>> {
    v.map_values(|s: String| s@)
}

proof fn lemma_insert_by_rank_at(ranks: StatusRanks, t: Seq<ShellAgent>, x: ShellAgent, j: int)
    requires
        0 <= j <= t.len(),
        forall|k: int| j <= k < t.len() ==> ranks_before(ranks, x, #[trigger] t[k]),
        j > 0 ==> !ranks_before(ranks, x, t[j - 1]),
    ensures
        insert_by_rank(ranks, t, x) == t.take(j).push(x) + t.skip(j),
    decreases t.len(),
{
    if t.len() == 0 {
        assert(t.take(j).push(x) + t.skip(j) =~= seq![x]);
    } else if j == t.len() {
        assert(t.take(j).push(x) + t.skip(j) =~= t.push(x));
    } else {
        assert(ranks_before(ranks, x, t[t.len() - 1]));
        let d = t.drop_last();
        assert forall|k: int| j <= k < d.len() implies ranks_before(ranks, x, #[trigger] d[k]) by {
            assert(d[k] == t[k]);
        }
        lemma_insert_by_rank_at(ranks, d, x, j);
        assert(t.take(j).push(x) + t.skip(j) =~= (d.take(j).push(x) + d.skip(j)).push(t.last()));
    }
}

fn agent_ranks_before(ranks: &StatusRanks, a: &ShellAgent, b: &ShellAgent) -> (before: bool)
    ensures
        before == ranks_before(*ranks, *a, *b),
{
    let ra = status_rank(ranks, a.agent_status);
    let rb = status_rank(ranks, b.agent_status);
    ra > rb || (ra == rb && a.state_change_seq > b.state_change_seq)
}

/// Indices of the agents in priority order.
fn rank_order(agents: &Vec<ShellAgent>, ranks: &StatusRanks) -> (idx: Vec<usize>)
    ensures
        forall|k: int| 0 <= k < idx@.len() ==> idx@[k] < agents@.len(),
        idx@.map_values(|i: usize| agents@[i as int]) == sort_by_rank(*ranks, agents@),
{
    let mut idx: Vec<usize> = Vec::new();
    let mut n: usize = 0;
    while n < agents.len()
        invariant
            n <= agents.len(),
            forall|k: int| 0 <= k < idx@.len() ==> idx@[k] < n,
            idx@.map_values(|i: usize| agents@[i as int]) == sort_by_rank(*ranks, agents@.take(n as int)),
        decreases agents.len() - n,
    {
        let ghost t = idx@.map_values(|i: usize| agents@[i as int]);
        let x = &agents[n];
        let mut j: usize = idx.len();
        while j > 0 && agent_ranks_before(ranks, x, &agents[idx[j - 1]])
            invariant
                j <= idx.len(),
                n < agents.len(),
                x == &agents@[n as int],
                forall|k: int| 0 <= k < idx@.len() ==> idx@[k] < n,
                t == idx@.map_values(|i: usize| agents@[i as int]),
                forall|k: int| j <= k < t.len() ==> ranks_before(*ranks, *x, #[trigger] t[k]),
            decreases j,
        {
            j = j - 1;
        }
        proof {
            lemma_insert_by_rank_at(*ranks, t, *x, j as int);
            assert(agents@.take(n + 1).drop_last() =~= agents@.take(n as int));
        }
        idx.insert(j, n);
        assert(idx@.map_values(|i: usize| agents@[i as int]) =~= t.take(j as int).push(*x) + t.skip(
            j as int,
        ));
        n = n + 1;
    }
    assert(agents@.take(agents.len() as int) =~= agents@);
    idx
}

/// Pane ids of the local agents in the order the panel lists them: the
/// agent view's order when a view is active, else the snapshot's order,
/// when the panel sorts by priority stably sorted by the rank of each
/// agent's status (higher first), then by most recent state change.
pub fn ordered_agent_pane_ids(snapshot: &ShellSnapshot, sort: AgentPanelSort, ranks: &StatusRanks) -> (ids:
    Vec<String>)
    ensures
        strings_view(ids@) == spec_ordered_agent_pane_ids(*snapshot, sort, *ranks),
{
    let mut ids: Vec<String> = Vec::new();
    if snapshot.agent_view_label.is_some() {
        let order = &snapshot.agent_order;
        let mut i: usize = 0;
        while i < order.len()
            invariant
                i <= order.len(),
                order == &snapshot.agent_order,
                strings_view(ids@) == present_view_ids(order@.take(i as int), snapshot.agents@),
            decreases order.len() - i,
        {
            assert(order@.take(i + 1).drop_last() =~= order@.take(i as int));
            if find_agent_by_pane(&snapshot.agents, order[i].as_str()).is_some() {
                ids.push(order[i].clone());
                assert(strings_view(ids@) =~= present_view_ids(order@.take(i as int), snapshot.agents@).push(order@[i as int]@));
            }
            i = i + 1;
        }
        assert(order@.take(order.len() as int) =~= order@);
        return ids;
    }
    let agents = &snapshot.agents;
    if sort == AgentPanelSort::Priority {
        let idx = rank_order(agents, ranks);
        let ghost sorted = sort_by_rank(*ranks, agents@);
        let mut i: usize = 0;
        while i < idx.len()
            invariant
                i <= idx.len(),
                agents == &snapshot.agents,
                forall|k: int| 0 <= k < idx@.len() ==> idx@[k] < agents@.len(),
                idx@.map_values(|m: usize| agents@[m as int]) == sorted,
                strings_view(ids@) == pane_ids(sorted.take(i as int)),
            decreases idx.len() - i,
        {
            let ghost before = ids@;
            let id = agents[idx[i]].pane_id.clone();
            ids.push(id);
            assert(sorted[i as int] == agents@[idx@[i as int] as int]);
            assert(ids@ == before.push(id));
            assert(strings_view(ids@) =~= strings_view(before).push(id@));
            assert(pane_ids(sorted.take(i + 1)) =~= pane_ids(sorted.take(i as int)).push(sorted[i as int].pane_id@));
            assert(strings_view(ids@) =~= pane_ids(sorted.take(i + 1)));
            i = i + 1;
        }
        assert(sorted.take(idx.len() as int) =~= sorted);
        return ids;
    }
    let mut i: usize = 0;
    while i < agents.len()
        invariant
            i <= agents.len(),
            agents == &snapshot.agents,
            strings_view(ids@) == pane_ids(agents@.take(i as int)),
        decreases agents.len() - i,
    {
        let ghost before = ids@;
        let id = agents[i].pane_id.clone();
        ids.push(id);
        assert(strings_view(ids@) =~= strings_view(before).push(id@));
        assert(pane_ids(agents@.take(i + 1)) =~= pane_ids(agents@.take(i as int)).push(agents@[i as int].pane_id@));
        assert(strings_view(ids@) =~= pane_ids(agents@.take(i + 1)));
        i = i + 1;
    }
    assert(agents@.take(agents.len() as int) =~= agents@);
    ids
}

// ---------------------------------------------------------------------
// Rows
// ---------------------------------------------------------------------

/// What a panel row stands for, by index into the snapshot.
#[derive(Clone, Copy, Debug)]
pub enum RowSource {
    /// A detected local agent, its workspace, and its tab and pane when
    /// the snapshot has them.
    Agent { agent: usize, workspace: usize, agent_tab: Option<usize>, agent_pane: Option<usize> },
    /// A lane tab whose lane a live remote agent runs.
    LaneTab { workspace: usize, tab: usize, pane: usize },
    /// A remote presence row.
    Remote { remote: usize },
}

/// The agent a row's tokens name: a Pi session, or the agent name that
/// the snapshot gives, for agent detection to read.
pub enum CanonicalAgent {
    Pi,
    Named(String),
}

pub enum CanonicalAgentView {
    Pi,
    Named(Seq<char>),
}

pub open spec fn canonical_view(c: Option<CanonicalAgent>) -> Option<CanonicalAgentView> {
    match c {
        Some(CanonicalAgent::Pi) => Some(CanonicalAgentView::Pi),
        Some(CanonicalAgent::Named(n)) => Some(CanonicalAgentView::Named(n@)),
        None => None,
    }
}

/// What a row's display tokens are made from: where the agent runs
/// (machine, workspace, tab, pane), how it is labelled, its tokens, and
/// the word for its state.
pub struct RowContext {
    pub machine: Option<String>,
    pub workspace: String,
    pub tab: Option<String>,
    pub pane: Option<String>,
    pub agent_label: Option<String>,
    pub terminal_title: Option<String>,
    pub terminal_title_stripped: Option<String>,
    pub canonical_agent: Option<CanonicalAgent>,
    pub tokens: Vec<(String, String)>,
    pub state_text: String,
}

pub struct RowContextView {
    pub machine: Option<Seq<char>>,
    pub workspace: Seq<char>,
    pub tab: Option<Seq<char>>,
    pub pane: Option<Seq<char>>,
    pub agent_label: Option<Seq<char>>,
    pub terminal_title: Option<Seq<char>>,
    pub terminal_title_stripped: Option<Seq<char>>,
    pub canonical_agent: Option<CanonicalAgentView>,
    pub tokens: Seq<(Seq<char>, Seq<char>)>,
    pub state_text: Seq<char>,
}

impl View for RowContext {
    type V = RowContextView;

    open spec fn view(&self) -> RowContextView {
        RowContextView {
            machine: self.machine.deep_view(),
            workspace: self.workspace@,
            tab: self.tab.deep_view(),
            pane: self.pane.deep_view(),
            agent_label: self.agent_label.deep_view(),
            terminal_title: self.terminal_title.deep_view(),
            terminal_title_stripped: self.terminal_title_stripped.deep_view(),
            canonical_agent: canonical_view(self.canonical_agent),
            tokens: token_view(self.tokens@),
            state_text: self.state_text@,
        }
    }
}

/// One row of the agent panel.
pub struct AgentRow {
    pub pane_id: String,
    pub status: AgentStatus,
    pub focused: bool,
    /// Remote rows are read-only: they get no click target.
    pub remote: bool,
    pub source: RowSource,
    pub context: RowContext,
}

pub struct AgentRowView {
    pub pane_id: Seq<char>,
    pub status: AgentStatus,
    pub focused: bool,
    pub remote: bool,
    pub source: RowSource,
    pub context: RowContextView,
}

impl View for AgentRow {
    type V = AgentRowView;

    open spec fn view(&self) -> AgentRowView {
        AgentRowView {
            pane_id: self.pane_id@,
            status: self.status,
            focused: self.focused,
            remote: self.remote,
            source: self.source,
            context: self.context@,
        }
    }
}

/// The later word of `labels` for `status`, if any.
pub open spec fn spec_state_label(labels: Seq<(AgentStatus, String)>, status: AgentStatus) -> Option<
    Seq<char>,
>
    decreases labels.len(),
{
    if labels.len() == 0 {
        None
    } else if labels.last().0 == status {
        Some(labels.last().1@)
    } else {
        spec_state_label(labels.drop_last(), status)
    }
}

/// The state word of a local agent: its own word for its status, else the
/// sidebar's.
pub open spec fn spec_state_text(a: ShellAgent) -> Seq<char> {
    match spec_state_label(a.state_labels@, a.agent_status) {
        Some(l) => l,
        None => spec_sidebar_status_text(a.agent_status),
    }
}

/// The context of a local agent's row: the machine the panel runs for, the
/// agent's workspace label, its tab's label when the tab is known, its
/// title or else its pane's label, its label, titles, named agent, tokens
/// and state word.
pub open spec fn spec_local_context(
    s: ShellSnapshot,
    machine: Option<Seq<char>>,
    agent: ShellAgent,
    w: int,
    tab: Option<int>,
    pane: Option<int>,
) -> RowContextView {
    RowContextView {
        machine,
        workspace: s.workspaces@[w].label@,
        tab: match tab {
            Some(t) => Some(s.tabs@[t].label@),
            None => None,
        },
        pane: match agent.title {
            Some(t) => Some(t@),
            None => match pane {
                Some(p) => s.panes@[p].label.deep_view(),
                None => None,
            },
        },
        agent_label: spec_agent_label(agent),
        terminal_title: agent.terminal_title.deep_view(),
        terminal_title_stripped: agent.terminal_title_stripped.deep_view(),
        canonical_agent: match agent.agent {
            Some(a) => Some(CanonicalAgentView::Named(a@)),
            None => None,
        },
        tokens: token_view(agent.tokens@),
        state_text: spec_state_text(agent),
    }
}

/// The context of a lane tab's row: its workspace and tab labels, the
/// pane's label, the tab label as the agent label, no tokens, idle.
pub open spec fn spec_lane_context(s: ShellSnapshot, w: int, t: int, p: int) -> RowContextView {
    RowContextView {
        machine: None,
        workspace: s.workspaces@[w].label@,
        tab: Some(s.tabs@[t].label@),
        pane: s.panes@[p].label.deep_view(),
        agent_label: Some(s.tabs@[t].label@),
        terminal_title: None,
        terminal_title_stripped: None,
        canonical_agent: None,
        tokens: Seq::empty(),
        state_text: spec_sidebar_status_text(AgentStatus::Idle),
    }
}

/// The context of a remote agent's row: its host, project and lane (as
/// tab and label), a Pi session for project users, its tokens at the
/// clock reading `now`, and the sidebar's word for its status.
pub open spec fn spec_remote_context(a: ShellRemoteAgent, now: Option<i64>) -> RowContextView {
    RowContextView {
        machine: a.host.deep_view(),
        workspace: a.project@,
        tab: Some(a.lane@),
        pane: None,
        agent_label: Some(a.lane@),
        terminal_title: None,
        terminal_title_stripped: None,
        canonical_agent: if spec_remote_agent_kind(a.project@) == "Pi"@ {
            Some(CanonicalAgentView::Pi)
        } else {
            None
        },
        tokens: spec_remote_tokens(a, now),
        state_text: spec_sidebar_status_text(spec_remote_agent_status(a.status@)),
    }
}

pub open spec fn rows_view(rows: Seq<AgentRow>) -> Seq<AgentRowView> {
    rows.map_values(|r: AgentRow| r@)
}

pub open spec fn opt_index(i: Option<int>) -> Option<usize> {
    match i {
        Some(k) => Some(k as usize),
        None => None,
    }
}

/// The row of the local agent with pane id `id`: none when no agent has
/// it, when the agent is out of scope, or when its workspace is unknown.
pub open spec fn spec_local_row(
    s: ShellSnapshot,
    scope: AgentPanelScope,
    machine: Option<Seq<char>>,
    id: Seq<char>,
) -> Option<AgentRowView> {
    match first_index(s.agents@, agent_has_pane(id)) {
        None => None,
        Some(a) => {
            let agent = s.agents@[a];
            if !spec_agent_matches_scope(s, agent.workspace_id@, scope) {
                None
            } else {
                match first_index(s.workspaces@, workspace_has_id(agent.workspace_id@)) {
                    None => None,
                    Some(w) => Some(
                        AgentRowView {
                            pane_id: agent.pane_id@,
                            status: agent.agent_status,
                            focused: agent.focused,
                            remote: false,
                            source: RowSource::Agent {
                                agent: a as usize,
                                workspace: w as usize,
                                agent_tab: opt_index(first_index(s.tabs@, tab_has_id(agent.tab_id@))),
                                agent_pane: opt_index(first_index(s.panes@, pane_has_id(agent.pane_id@))),
                            },
                            context: spec_local_context(
                                s,
                                machine,
                                agent,
                                w,
                                first_index(s.tabs@, tab_has_id(agent.tab_id@)),
                                first_index(s.panes@, pane_has_id(agent.pane_id@)),
                            ),
                        },
                    ),
                }
            }
        },
    }
}

pub open spec fn local_rows_of(
    s: ShellSnapshot,
    scope: AgentPanelScope,
    machine: Option<Seq<char>>,
    ids: Seq<Seq<char>>,
) -> Seq<AgentRowView>
    decreases ids.len(),
{
    if ids.len() == 0 {
        Seq::empty()
    } else {
        let before = local_rows_of(s, scope, machine, ids.drop_last());
        match spec_local_row(s, scope, machine, ids.last()) {
            Some(r) => before.push(r),
            None => before,
        }
    }
}

/// Rows of the detected local agents, in panel order.
pub open spec fn spec_local_rows(s: ShellSnapshot, cfg: PanelConfig, machine: Option<Seq<char>>) -> Seq<
    AgentRowView,
> {
    local_rows_of(
        s,
        cfg.agent_panel_scope,
        machine,
        spec_ordered_agent_pane_ids(s, cfg.agent_panel_sort, cfg.status_ranks),
    )
}

/// Indices of the first `n` tabs that belong to workspace `ws`.
pub open spec fn tabs_of_workspace(tabs: Seq<ShellTab>, ws: Seq<char>, n: int) -> Seq<int>
    decreases n,
{
    if n <= 0 {
        Seq::empty()
    } else {
        let before = tabs_of_workspace(tabs, ws, n - 1);
        if tabs[n - 1].workspace_id@ == ws {
            before.push(n - 1)
        } else {
            before
        }
    }
}

pub open spec fn insert_by_number(sorted: Seq<int>, x: int, tabs: Seq<ShellTab>) -> Seq<int>
    decreases sorted.len(),
{
    if sorted.len() == 0 {
        seq![x]
    } else if tabs[x].number < tabs[sorted.last()].number {
        insert_by_number(sorted.drop_last(), x, tabs).push(sorted.last())
    } else {
        sorted.push(x)
    }
}

/// Tab indices stably sorted by tab number.
pub open spec fn sort_by_number(s: Seq<int>, tabs: Seq<ShellTab>) -> Seq<int>
    decreases s.len(),
{
    if s.len() == 0 {
        Seq::empty()
    } else {
        insert_by_number(sort_by_number(s.drop_last(), tabs), s.last(), tabs)
    }
}

/// The row for tab `t` of workspace `w`: its primary pane, when no
/// detected agent already covers that pane and a live remote agent runs
/// the tab's lane of the workspace's project.
pub open spec fn spec_lane_row(s: ShellSnapshot, w: int, t: int) -> Option<AgentRowView> {
    let ws = s.workspaces@[w];
    let tab = s.tabs@[t];
    match spec_primary_pane_for_tab(s, ws.workspace_id@, tab.tab_id@) {
        None => None,
        Some(p) => {
            let pane = s.panes@[p];
            if first_index(s.agents@, agent_has_pane(pane.pane_id@)) is Some {
                None
            } else if !spec_live_presence_covers_lane(s, ws.label@, tab.label@) {
                None
            } else {
                Some(
                    AgentRowView {
                        pane_id: pane.pane_id@,
                        status: AgentStatus::Idle,
                        focused: pane.focused,
                        remote: false,
                        source: RowSource::LaneTab {
                            workspace: w as usize,
                            tab: t as usize,
                            pane: p as usize,
                        },
                        context: spec_lane_context(s, w, t, p),
                    },
                )
            }
        },
    }
}

pub open spec fn lane_rows_of_tabs(s: ShellSnapshot, w: int, ts: Seq<int>) -> Seq<AgentRowView>
    decreases ts.len(),
{
    if ts.len() == 0 {
        Seq::empty()
    } else {
        let before = lane_rows_of_tabs(s, w, ts.drop_last());
        match spec_lane_row(s, w, ts.last()) {
            Some(r) => before.push(r),
            None => before,
        }
    }
}

pub open spec fn workspace_lane_rows(s: ShellSnapshot, scope: AgentPanelScope, w: int) -> Seq<
    AgentRowView,
> {
    let ws = s.workspaces@[w];
    if !spec_agent_matches_scope(s, ws.workspace_id@, scope) {
        Seq::empty()
    } else {
        lane_rows_of_tabs(
            s,
            w,
            sort_by_number(tabs_of_workspace(s.tabs@, ws.workspace_id@, s.tabs@.len() as int), s.tabs@),
        )
    }
}

pub open spec fn lane_rows_upto(s: ShellSnapshot, scope: AgentPanelScope, n: int) -> Seq<
    AgentRowView,
>
    decreases n,
{
    if n <= 0 {
        Seq::empty()
    } else {
        lane_rows_upto(s, scope, n - 1) + workspace_lane_rows(s, scope, n - 1)
    }
}

/// Rows for lane tabs that live remote agents run but no detected agent
/// covers, by workspace and then by tab number; none in an agent view.
pub open spec fn spec_lane_tab_rows(s: ShellSnapshot, cfg: PanelConfig) -> Seq<AgentRowView> {
    if s.agent_view_label is Some {
        Seq::empty()
    } else {
        lane_rows_upto(s, cfg.agent_panel_scope, s.workspaces@.len() as int)
    }
}

pub open spec fn remote_pane_prefix() -> Seq<char> {
    seq!['r', 'e', 'm', 'o', 't', 'e', ':']
}

/// The row of remote agent `i`: shown when it is alive, in scope, and
/// this server has no tab for its lane.
pub open spec fn spec_remote_row(s: ShellSnapshot, scope: AgentPanelScope, now: Option<i64>, i: int) -> Option<
    AgentRowView,
> {
    let a = s.remote_agents@[i];
    if a.process_alive && spec_remote_matches_scope(s, a.project@, scope)
        && !spec_workspace_has_lane_tab(s, a.project@, a.lane@) {
        Some(
            AgentRowView {
                pane_id: remote_pane_prefix() + a.agent_id@,
                status: spec_remote_agent_status(a.status@),
                focused: false,
                remote: true,
                source: RowSource::Remote { remote: i as usize },
                context: spec_remote_context(a, now),
            },
        )
    } else {
        None
    }
}

pub open spec fn remote_rows_upto(s: ShellSnapshot, scope: AgentPanelScope, now: Option<i64>, n: int) -> Seq<
    AgentRowView,
>
    decreases n,
{
    if n <= 0 {
        Seq::empty()
    } else {
        let before = remote_rows_upto(s, scope, now, n - 1);
        match spec_remote_row(s, scope, now, n - 1) {
            Some(r) => before.push(r),
            None => before,
        }
    }
}

/// Remote presence rows, with their tokens at the clock reading `now`;
/// none in an agent view or when remotes are hidden.
pub open spec fn spec_remote_rows(s: ShellSnapshot, cfg: PanelConfig, now: Option<i64>) -> Seq<
    AgentRowView,
> {
    if s.agent_view_label is Some || cfg.agent_panel_remotes == AgentPanelRemotes::Hide {
        Seq::empty()
    } else {
        remote_rows_upto(s, cfg.agent_panel_scope, now, s.remote_agents@.len() as int)
    }
}

/// All rows of the panel: local agents, then lane tabs, then remotes.
pub open spec fn spec_agent_rows(
    s: ShellSnapshot,
    cfg: PanelConfig,
    machine: Option<Seq<char>>,
    now: Option<i64>,
) -> Seq<AgentRowView> {
    spec_local_rows(s, cfg, machine) + spec_lane_tab_rows(s, cfg) + spec_remote_rows(s, cfg, now)
}

pub open spec fn opt_str_view(o: Option<&str>) -> Option<Seq<char>> {
    match o {
        Some(m) => Some(m@),
        None => None,
    }
}

fn owned_opt(o: Option<&str>) -> (out: Option<String>)
    ensures
        out.deep_view() == opt_str_view(o),
{
    match o {
        Some(m) => Some(owned(m)),
        None => None,
    }
}

/// A copy of a list of tokens.
fn clone_tokens(t: &Vec<(String, String)>) -> (out: Vec<(String, String)>)
    ensures
        token_view(out@) == token_view(t@),
{
    let mut out: Vec<(String, String)> = Vec::new();
    let mut i: usize = 0;
    while i < t.len()
        invariant
            i <= t.len(),
            token_view(out@) == token_view(t@.take(i as int)),
        decreases t.len() - i,
    {
        let ghost before = out@;
        out.push((t[i].0.clone(), t[i].1.clone()));
        assert(token_view(out@) =~= token_view(before).push((t@[i as int].0@, t@[i as int].1@)));
        assert(token_view(t@.take(i + 1)) =~= token_view(t@.take(i as int)).push(
            (t@[i as int].0@, t@[i as int].1@),
        ));
        i = i + 1;
    }
    assert(t@.take(t.len() as int) =~= t@);
    out
}

/// The state word of a local agent (see [`spec_state_text`]).
pub fn state_text(agent: &ShellAgent) -> (text: String)
    ensures
        text@ == spec_state_text(*agent),
{
    let labels = &agent.state_labels;
    let mut i: usize = labels.len();
    assert(labels@.take(i as int) =~= labels@);
    while i > 0
        invariant
            i <= labels@.len(),
            labels == &agent.state_labels,
            spec_state_label(labels@, agent.agent_status) == spec_state_label(
                labels@.take(i as int),
                agent.agent_status,
            ),
        decreases i,
    {
        let ghost t = labels@.take(i as int);
        assert(t.last() == labels@[i - 1]);
        if labels[i - 1].0 == agent.agent_status {
            return labels[i - 1].1.clone();
        }
        assert(t.drop_last() =~= labels@.take(i - 1));
        i = i - 1;
    }
    owned(sidebar_status_text(agent.agent_status))
}

fn local_row(snapshot: &ShellSnapshot, scope: AgentPanelScope, machine: Option<&str>, id: &str) -> (row:
    Option<AgentRow>)
    ensures
        match row {
            Some(r) => spec_local_row(*snapshot, scope, opt_str_view(machine), id@) == Some(r@),
            None => spec_local_row(*snapshot, scope, opt_str_view(machine), id@) is None,
        },
{
    let a = match find_agent_by_pane(&snapshot.agents, id) {
        Some(a) => a,
        None => return None,
    };
    let agent = &snapshot.agents[a];
    if !agent_matches_scope(snapshot, agent.workspace_id.as_str(), scope) {
        return None;
    }
    let w = match find_workspace_by_id(&snapshot.workspaces, agent.workspace_id.as_str()) {
        Some(w) => w,
        None => return None,
    };
    let tab = find_tab_by_id(&snapshot.tabs, agent.tab_id.as_str());
    let pane = find_pane_by_id(&snapshot.panes, agent.pane_id.as_str());
    let tab_label = match tab {
        Some(t) => Some(snapshot.tabs[t].label.clone()),
        None => None,
    };
    let pane_label = match &agent.title {
        Some(t) => Some(t.clone()),
        None => match pane {
            Some(p) => clone_opt_string(&snapshot.panes[p].label),
            None => None,
        },
    };
    let canonical_agent = match &agent.agent {
        Some(name) => Some(CanonicalAgent::Named(name.clone())),
        None => None,
    };
    let context = RowContext {
        machine: owned_opt(machine),
        workspace: snapshot.workspaces[w].label.clone(),
        tab: tab_label,
        pane: pane_label,
        agent_label: owned_opt(agent_label(agent)),
        terminal_title: clone_opt_string(&agent.terminal_title),
        terminal_title_stripped: clone_opt_string(&agent.terminal_title_stripped),
        canonical_agent,
        tokens: clone_tokens(&agent.tokens),
        state_text: state_text(agent),
    };
    let row = AgentRow {
        pane_id: agent.pane_id.clone(),
        status: agent.agent_status,
        focused: agent.focused,
        remote: false,
        source: RowSource::Agent { agent: a, workspace: w, agent_tab: tab, agent_pane: pane },
        context,
    };
    assert(row@.context == spec_local_context(
        *snapshot,
        opt_str_view(machine),
        *agent,
        w as int,
        first_index(snapshot.tabs@, tab_has_id(agent.tab_id@)),
        first_index(snapshot.panes@, pane_has_id(agent.pane_id@)),
    ));
    Some(row)
}

fn local_agent_rows(snapshot: &ShellSnapshot, cfg: &PanelConfig, machine: Option<&str>) -> (rows: Vec<
    AgentRow,
>)
    ensures
        rows_view(rows@) == spec_local_rows(*snapshot, *cfg, opt_str_view(machine)),
{
    let ids = ordered_agent_pane_ids(snapshot, cfg.agent_panel_sort, &cfg.status_ranks);
    let ghost idv = strings_view(ids@);
    let mut rows: Vec<AgentRow> = Vec::new();
    let mut i: usize = 0;
    while i < ids.len()
        invariant
            i <= ids.len(),
            idv == strings_view(ids@),
            rows_view(rows@) == local_rows_of(
                *snapshot,
                cfg.agent_panel_scope,
                opt_str_view(machine),
                idv.take(i as int),
            ),
        decreases ids.len() - i,
    {
        assert(idv.take(i + 1).drop_last() =~= idv.take(i as int));
        assert(idv.take(i + 1).last() == ids@[i as int]@);
        match local_row(snapshot, cfg.agent_panel_scope, machine, ids[i].as_str()) {
            Some(r) => {
                let ghost before = rows@;
                rows.push(r);
                assert(rows_view(rows@) =~= rows_view(before).push(r@));
            },
            None => {},
        }
        i = i + 1;
    }
    assert(idv.take(ids.len() as int) =~= idv);
    rows
}

proof fn lemma_insert_by_number_at(t: Seq<int>, x: int, tabs: Seq<ShellTab>, j: int)
    requires
        0 <= j <= t.len(),
        forall|k: int| j <= k < t.len() ==> tabs[x].number < tabs[#[trigger] t[k]].number,
        j > 0 ==> !(tabs[x].number < tabs[t[j - 1]].number),
    ensures
        insert_by_number(t, x, tabs) == t.take(j).push(x) + t.skip(j),
    decreases t.len(),
{
    if t.len() == 0 {
        assert(t.take(j).push(x) + t.skip(j) =~= seq![x]);
    } else if j == t.len() {
        assert(t.take(j).push(x) + t.skip(j) =~= t.push(x));
    } else {
        let d = t.drop_last();
        assert forall|k: int| j <= k < d.len() implies tabs[x].number < tabs[#[trigger] d[k]].number by {
            assert(d[k] == t[k]);
        }
        lemma_insert_by_number_at(d, x, tabs, j);
        assert(t.take(j).push(x) + t.skip(j) =~= (d.take(j).push(x) + d.skip(j)).push(t.last()));
    }
}

/// Indices of the tabs of workspace `ws`, stably sorted by tab number.
fn sorted_tabs_of(tabs: &Vec<ShellTab>, ws: &str) -> (idx: Vec<usize>)
    ensures
        forall|k: int| 0 <= k < idx@.len() ==> idx@[k] < tabs@.len(),
        idx@.map_values(|i: usize| i as int) == sort_by_number(
            tabs_of_workspace(tabs@, ws@, tabs@.len() as int),
            tabs@,
        ),
{
    let mut idx: Vec<usize> = Vec::new();
    let mut n: usize = 0;
    while n < tabs.len()
        invariant
            n <= tabs.len(),
            forall|k: int| 0 <= k < idx@.len() ==> idx@[k] < n,
            idx@.map_values(|i: usize| i as int) == sort_by_number(
                tabs_of_workspace(tabs@, ws@, n as int),
                tabs@,
            ),
        decreases tabs.len() - n,
    {
        if str_eq(tabs[n].workspace_id.as_str(), ws) {
            let ghost t = idx@.map_values(|i: usize| i as int);
            let number = tabs[n].number;
            let mut j: usize = idx.len();
            while j > 0 && number < tabs[idx[j - 1]].number
                invariant
                    j <= idx.len(),
                    n < tabs.len(),
                    number == tabs@[n as int].number,
                    forall|k: int| 0 <= k < idx@.len() ==> idx@[k] < n,
                    t == idx@.map_values(|i: usize| i as int),
                    forall|k: int| j <= k < t.len() ==> tabs@[n as int].number < tabs@[#[trigger] t[k]].number,
                decreases j,
            {
                j = j - 1;
            }
            proof {
                lemma_insert_by_number_at(t, n as int, tabs@, j as int);
                let s1 = tabs_of_workspace(tabs@, ws@, n + 1);
                assert(s1.drop_last() =~= tabs_of_workspace(tabs@, ws@, n as int));
            }
            idx.insert(j, n);
            assert(idx@.map_values(|i: usize| i as int) =~= t.take(j as int).push(n as int)
                + t.skip(j as int));
        }
        n = n + 1;
    }
    idx
}

fn lane_row(snapshot: &ShellSnapshot, w: usize, t: usize) -> (row: Option<AgentRow>)
    requires
        w < snapshot.workspaces@.len(),
        t < snapshot.tabs@.len(),
    ensures
        match row {
            Some(r) => spec_lane_row(*snapshot, w as int, t as int) == Some(r@),
            None => spec_lane_row(*snapshot, w as int, t as int) is None,
        },
{
    let ws = &snapshot.workspaces[w];
    let tab = &snapshot.tabs[t];
    let p = match primary_pane_for_tab(snapshot, ws.workspace_id.as_str(), tab.tab_id.as_str()) {
        Some(p) => p,
        None => return None,
    };
    proof {
        lemma_primary_pane_bound(*snapshot, ws.workspace_id@, tab.tab_id@);
    }
    let pane = &snapshot.panes[p];
    if find_agent_by_pane(&snapshot.agents, pane.pane_id.as_str()).is_some() {
        return None;
    }
    if !live_presence_covers_lane(snapshot, ws.label.as_str(), tab.label.as_str()) {
        return None;
    }
    let context = RowContext {
        machine: None,
        workspace: ws.label.clone(),
        tab: Some(tab.label.clone()),
        pane: clone_opt_string(&pane.label),
        agent_label: Some(tab.label.clone()),
        terminal_title: None,
        terminal_title_stripped: None,
        canonical_agent: None,
        tokens: Vec::new(),
        state_text: owned(sidebar_status_text(AgentStatus::Idle)),
    };
    let row = AgentRow {
        pane_id: pane.pane_id.clone(),
        status: AgentStatus::Idle,
        focused: pane.focused,
        remote: false,
        source: RowSource::LaneTab { workspace: w, tab: t, pane: p },
        context,
    };
    assert(token_view(row.context.tokens@) =~= Seq::<(Seq<char>, Seq<char>)>::empty());
    assert(row@.context == spec_lane_context(*snapshot, w as int, t as int, p as int));
    Some(row)
}

proof fn lemma_first_index_bound<T>(s: Seq<T>, p: spec_fn(T) -> bool)
    ensures
        first_index(s, p) matches Some(i) ==> 0 <= i < s.len(),
    decreases s.len(),
{
    if s.len() > 0 {
        lemma_first_index_bound(s.drop_first(), p);
    }
}

proof fn lemma_primary_pane_bound(s: ShellSnapshot, ws: Seq<char>, tab: Seq<char>)
    ensures
        spec_primary_pane_for_tab(s, ws, tab) matches Some(i) ==> 0 <= i < s.panes@.len(),
{
    lemma_first_index_bound(s.panes@, focused_pane_in_tab(ws, tab));
    lemma_first_index_bound(s.panes@, pane_in_tab(ws, tab));
}

/// Rows for lane tabs run by live remote agents that no detected agent
/// covers.
pub fn lane_tab_agent_rows(snapshot: &ShellSnapshot, cfg: &PanelConfig) -> (rows: Vec<AgentRow>)
    ensures
        rows_view(rows@) == spec_lane_tab_rows(*snapshot, *cfg),
{
    let mut rows: Vec<AgentRow> = Vec::new();
    if snapshot.agent_view_label.is_some() {
        return rows;
    }
    let scope = cfg.agent_panel_scope;
    let mut w: usize = 0;
    while w < snapshot.workspaces.len()
        invariant
            w <= snapshot.workspaces@.len(),
            scope == cfg.agent_panel_scope,
            rows_view(rows@) == lane_rows_upto(*snapshot, scope, w as int),
        decreases snapshot.workspaces@.len() - w,
    {
        let ws = &snapshot.workspaces[w];
        let ghost before_ws = rows_view(rows@);
        if agent_matches_scope(snapshot, ws.workspace_id.as_str(), scope) {
            let tabs = sorted_tabs_of(&snapshot.tabs, ws.workspace_id.as_str());
            let ghost ts = tabs@.map_values(|i: usize| i as int);
            let mut k: usize = 0;
            while k < tabs.len()
                invariant
                    k <= tabs.len(),
                    w < snapshot.workspaces@.len(),
                    ts == tabs@.map_values(|i: usize| i as int),
                    forall|m: int| 0 <= m < tabs@.len() ==> tabs@[m] < snapshot.tabs@.len(),
                    rows_view(rows@) == before_ws + lane_rows_of_tabs(*snapshot, w as int, ts.take(k as int)),
                decreases tabs.len() - k,
            {
                assert(ts.take(k + 1).drop_last() =~= ts.take(k as int));
                assert(ts.take(k + 1).last() == tabs@[k as int] as int);
                match lane_row(snapshot, w, tabs[k]) {
                    Some(r) => {
                        let ghost prev = rows@;
                        rows.push(r);
                        assert(rows_view(rows@) =~= rows_view(prev).push(r@));
                    },
                    None => {},
                }
                k = k + 1;
            }
            assert(ts.take(tabs.len() as int) =~= ts);
        } else {
            assert(before_ws + workspace_lane_rows(*snapshot, scope, w as int) =~= before_ws);
        }
        w = w + 1;
    }
    rows
}

fn remote_row(snapshot: &ShellSnapshot, scope: AgentPanelScope, now: Option<i64>, i: usize) -> (row:
    Option<AgentRow>)
    requires
        i < snapshot.remote_agents@.len(),
    ensures
        match row {
            Some(r) => spec_remote_row(*snapshot, scope, now, i as int) == Some(r@),
            None => spec_remote_row(*snapshot, scope, now, i as int) is None,
        },
{
    let a = &snapshot.remote_agents[i];
    if !a.process_alive {
        return None;
    }
    if !remote_presence_matches_scope(snapshot, a.project.as_str(), scope) {
        return None;
    }
    if workspace_has_lane_tab(snapshot, a.project.as_str(), a.lane.as_str()) {
        return None;
    }
    let mut pane_id = String::new();
    push_str(&mut pane_id, "remote:");
    push_str(&mut pane_id, a.agent_id.as_str());
    proof {
        reveal_strlit("remote:");
    }
    assert(pane_id@ =~= remote_pane_prefix() + a.agent_id@);
    let status = remote_agent_status(a.status.as_str());
    let canonical_agent = if str_eq(remote_agent_kind(a), "Pi") {
        Some(CanonicalAgent::Pi)
    } else {
        None
    };
    let context = RowContext {
        machine: clone_opt_string(&a.host),
        workspace: a.project.clone(),
        tab: Some(a.lane.clone()),
        pane: None,
        agent_label: Some(a.lane.clone()),
        terminal_title: None,
        terminal_title_stripped: None,
        canonical_agent,
        tokens: remote_row_tokens(a, now),
        state_text: owned(sidebar_status_text(status)),
    };
    let row = AgentRow {
        pane_id,
        status,
        focused: false,
        remote: true,
        source: RowSource::Remote { remote: i },
        context,
    };
    assert(row@.context =~= spec_remote_context(*a, now));
    Some(row)
}

/// Read-only rows for live remote presence agents in scope that have no
/// lane tab on this server, with their tokens at the current time.
pub fn remote_agent_rows(snapshot: &ShellSnapshot, cfg: &PanelConfig) -> (rows: Vec<AgentRow>)
    ensures
        exists|now: Option<i64>| rows_view(rows@) == spec_remote_rows(*snapshot, *cfg, now),
{
    let now = unix_now();
    remote_agent_rows_at(snapshot, cfg, now)
}

/// Read-only rows for live remote presence agents in scope that have no
/// lane tab on this server; `now` is the clock reading (Unix seconds) their
/// freshness tokens are taken at, `None` when the clock is unreadable.
pub fn remote_agent_rows_at(snapshot: &ShellSnapshot, cfg: &PanelConfig, now: Option<i64>) -> (rows:
    Vec<AgentRow>)
    ensures
        rows_view(rows@) == spec_remote_rows(*snapshot, *cfg, now),
{
    let mut rows: Vec<AgentRow> = Vec::new();
    if snapshot.agent_view_label.is_some() || cfg.agent_panel_remotes == AgentPanelRemotes::Hide {
        return rows;
    }
    let mut i: usize = 0;
    while i < snapshot.remote_agents.len()
        invariant
            i <= snapshot.remote_agents@.len(),
            rows_view(rows@) == remote_rows_upto(*snapshot, cfg.agent_panel_scope, now, i as int),
        decreases snapshot.remote_agents@.len() - i,
    {
        match remote_row(snapshot, cfg.agent_panel_scope, now, i) {
            Some(r) => {
                let ghost prev = rows@;
                rows.push(r);
                assert(rows_view(rows@) =~= rows_view(prev).push(r@));
            },
            None => {},
        }
        i = i + 1;
    }
    rows
}

fn append_rows(out: &mut Vec<AgentRow>, more: Vec<AgentRow>)
    ensures
        rows_view(final(out)@) == rows_view(old(out)@) + rows_view(more@),
{
    let ghost start = out@;
    let ghost m = more@;
    let mut more = more;
    out.append(&mut more);
    assert(rows_view(out@) =~= rows_view(start) + rows_view(m));
}

/// All rows of the agent panel: local agents in panel order, then lane
/// tabs run by remote agents, then remote presence rows with their tokens
/// at the current time. `machine` is the machine the panel runs for.
pub fn agent_rows(snapshot: &ShellSnapshot, cfg: &PanelConfig, machine: Option<&str>) -> (rows: Vec<
    AgentRow,
>)
    ensures
        exists|now: Option<i64>|
            rows_view(rows@) == spec_agent_rows(*snapshot, *cfg, opt_str_view(machine), now),
{
    let now = unix_now();
    agent_rows_at(snapshot, cfg, machine, now)
}

/// All rows of the agent panel (see [`agent_rows`]), with the remote
/// rows' tokens at the clock reading `now`.
pub fn agent_rows_at(snapshot: &ShellSnapshot, cfg: &PanelConfig, machine: Option<&str>, now: Option<
    i64,
>) -> (rows: Vec<AgentRow>)
    ensures
        rows_view(rows@) == spec_agent_rows(*snapshot, *cfg, opt_str_view(machine), now),
{
    let mut rows = local_agent_rows(snapshot, cfg, machine);
    let lanes = lane_tab_agent_rows(snapshot, cfg);
    append_rows(&mut rows, lanes);
    let remotes = remote_agent_rows_at(snapshot, cfg, now);
    append_rows(&mut rows, remotes);
    rows
}

/// The label a local agent row shows: its display name, else its name,
/// else its agent kind, else its title.
pub open spec fn spec_agent_label(a: ShellAgent) -> Option<Seq<char>> {
    match a.display_agent {
        Some(l) => Some(l@),
        None => match a.name {
            Some(l) => Some(l@),
            None => match a.agent {
                Some(l) => Some(l@),
                None => match a.title {
                    Some(l) => Some(l@),
                    None => None,
                },
            },
        },
    }
}

pub fn agent_label(agent: &ShellAgent) -> (label: Option<&str>)
    ensures
        match label {
            Some(l) => spec_agent_label(*agent) == Some(l@),
            None => spec_agent_label(*agent) is None,
        },
{
    if let Some(l) = &agent.display_agent {
        return Some(l.as_str());
    }
    if let Some(l) = &agent.name {
        return Some(l.as_str());
    }
    if let Some(l) = &agent.agent {
        return Some(l.as_str());
    }
    if let Some(l) = &agent.title {
        return Some(l.as_str());
    }
    None
}

pub open spec fn token_view(t: Seq<(String, String)>) -> Seq<(Seq<char>, Seq<char>)> {
    t.map_values(|p: (String, String)| (p.0@, p.1@))
}

/// The display tokens of a remote row: its session memo when non-empty,
/// its kind, its freshness when the clock and its timestamp are readable,
/// and its context usage when known.
pub open spec fn spec_remote_tokens(a: ShellRemoteAgent, now: Option<i64>) -> Seq<
    (Seq<char>, Seq<char>),
> {
    let memo: Seq<(Seq<char>, Seq<char>)> = match a.session_memo {
        Some(m) => if m@.len() > 0 {
            seq![("session_memo"@, m@)]
        } else {
            Seq::empty()
        },
        None => Seq::empty(),
    };
    let kind = seq![("kind"@, spec_remote_agent_kind(a.project@))];
    let seen: Seq<(Seq<char>, Seq<char>)> = match (now, a.last_seen_ts) {
        (Some(n), Some(ts)) => match rfc3339_seconds(vstd::utf8::encode_utf8(ts@)) {
            Some(t) => seq![("last_seen"@, relative_label(t, n as int))],
            None => Seq::empty(),
        },
        _ => Seq::empty(),
    };
    let context: Seq<(Seq<char>, Seq<char>)> = match a.context_usage {
        Some(c) => seq![("context"@, c@)],
        None => Seq::empty(),
    };
    memo + kind + seen + context
}

/// The display tokens of a remote row (see [`spec_remote_tokens`]); `now`
/// is the current Unix time in seconds when the clock is readable.
pub fn remote_row_tokens(agent: &ShellRemoteAgent, now: Option<i64>) -> (tokens: Vec<
    (String, String),
>)
    ensures
        token_view(tokens@) == spec_remote_tokens(*agent, now),
{
    let mut tokens: Vec<(String, String)> = Vec::new();
    if let Some(memo) = &agent.session_memo {
        if !memo.as_str().is_empty() {
            tokens.push((crate::text::owned("session_memo"), memo.clone()));
        }
    }
    let ghost t1 = token_view(tokens@);
    let kind = remote_agent_kind(agent);
    tokens.push((crate::text::owned("kind"), crate::text::owned(kind)));
    let ghost t2 = token_view(tokens@);
    assert(t2 =~= t1.push(("kind"@, spec_remote_agent_kind(agent.project@))));
    if let (Some(n), Some(ts)) = (now, &agent.last_seen_ts) {
        match remote_relative_time_at(ts.as_str(), n) {
            Some(label) => {
                tokens.push((crate::text::owned("last_seen"), label));
            },
            None => {},
        }
    }
    let ghost t3 = token_view(tokens@);
    if let Some(c) = &agent.context_usage {
        tokens.push((crate::text::owned("context"), c.clone()));
    }
    assert(token_view(tokens@) =~= spec_remote_tokens(*agent, now));
    tokens
}

// ---------------------------------------------------------------------
// Laws
// ---------------------------------------------------------------------

proof fn lemma_remote_rows_upto(s: ShellSnapshot, scope: AgentPanelScope, now: Option<i64>, n: int)
    requires
        n <= s.remote_agents@.len(),
    ensures
        forall|k: int|
            0 <= k < remote_rows_upto(s, scope, now, n).len() ==> {
                let r = #[trigger] remote_rows_upto(s, scope, now, n)[k];
                &&& r.remote
                &&& !r.focused
                &&& r.source matches RowSource::Remote { remote: i } && {
                    let a = s.remote_agents@[i as int];
                    &&& 0 <= i < s.remote_agents@.len()
                    &&& a.process_alive
                    &&& !spec_workspace_has_lane_tab(s, a.project@, a.lane@)
                    &&& r.pane_id == remote_pane_prefix() + a.agent_id@
                    &&& r.context == spec_remote_context(a, now)
                }
            },
    decreases n,
{
    if n > 0 {
        lemma_remote_rows_upto(s, scope, now, n - 1);
        let before = remote_rows_upto(s, scope, now, n - 1);
        let all = remote_rows_upto(s, scope, now, n);
        assert forall|k: int| 0 <= k < all.len() implies {
            let r = #[trigger] all[k];
            &&& r.remote
            &&& !r.focused
            &&& r.source matches RowSource::Remote { remote: i } && {
                let a = s.remote_agents@[i as int];
                &&& 0 <= i < s.remote_agents@.len()
                &&& a.process_alive
                &&& !spec_workspace_has_lane_tab(s, a.project@, a.lane@)
                &&& r.pane_id == remote_pane_prefix() + a.agent_id@
                &&& r.context == spec_remote_context(a, now)
            }
        } by {
            if k < before.len() {
                assert(all[k] == before[k]);
            } else {
                assert(s.remote_agents.len() == s.remote_agents@.len());
                assert(((n - 1) as usize) as int == n - 1);
            }
        }
    }
}

/// Remote presence rows are read-only (no focus, no local pane id: their id
/// is `remote:` and the agent id), a remote agent gets a row only when it
/// is alive and this server has no tab for its lane, and its row carries
/// that agent's tokens.
pub proof fn lemma_remote_rows_are_read_only(s: ShellSnapshot, cfg: PanelConfig, now: Option<i64>)
    ensures
        forall|k: int|
            0 <= k < spec_remote_rows(s, cfg, now).len() ==> {
                let r = #[trigger] spec_remote_rows(s, cfg, now)[k];
                &&& r.remote
                &&& !r.focused
                &&& r.source matches RowSource::Remote { remote: i } && {
                    let a = s.remote_agents@[i as int];
                    &&& 0 <= i < s.remote_agents@.len()
                    &&& a.process_alive
                    &&& !spec_workspace_has_lane_tab(s, a.project@, a.lane@)
                    &&& r.pane_id == remote_pane_prefix() + a.agent_id@
                    &&& r.context == spec_remote_context(a, now)
                }
            },
{
    if !(s.agent_view_label is Some || cfg.agent_panel_remotes == AgentPanelRemotes::Hide) {
        lemma_remote_rows_upto(s, cfg.agent_panel_scope, now, s.remote_agents@.len() as int);
    }
}

proof fn lemma_local_rows_of(
    s: ShellSnapshot,
    scope: AgentPanelScope,
    machine: Option<Seq<char>>,
    ids: Seq<Seq<char>>,
)
    ensures
        forall|k: int|
            0 <= k < local_rows_of(s, scope, machine, ids).len() ==> {
                let r = #[trigger] local_rows_of(s, scope, machine, ids)[k];
                &&& !r.remote
                &&& r.source matches RowSource::Agent { agent: a, .. } && {
                    &&& 0 <= a < s.agents@.len()
                    &&& spec_agent_matches_scope(s, s.agents@[a as int].workspace_id@, scope)
                    &&& r.pane_id == s.agents@[a as int].pane_id@
                    &&& r.focused == s.agents@[a as int].focused
                    &&& r.status == s.agents@[a as int].agent_status
                }
            },
    decreases ids.len(),
{
    if ids.len() > 0 {
        lemma_local_rows_of(s, scope, machine, ids.drop_last());
        lemma_first_index_bound(s.agents@, agent_has_pane(ids.last()));
        let before = local_rows_of(s, scope, machine, ids.drop_last());
        let all = local_rows_of(s, scope, machine, ids);
        assert forall|k: int| 0 <= k < all.len() implies {
            let r = #[trigger] all[k];
            &&& !r.remote
            &&& r.source matches RowSource::Agent { agent: a, .. } && {
                &&& 0 <= a < s.agents@.len()
                &&& spec_agent_matches_scope(s, s.agents@[a as int].workspace_id@, scope)
                &&& r.pane_id == s.agents@[a as int].pane_id@
                &&& r.focused == s.agents@[a as int].focused
                &&& r.status == s.agents@[a as int].agent_status
            }
        } by {
            if k < before.len() {
                assert(all[k] == before[k]);
            } else {
                assert(s.agents.len() == s.agents@.len());
                let a = first_index(s.agents@, agent_has_pane(ids.last()));
                assert(a is Some);
                assert((a->0 as usize) as int == a->0);
            }
        }
    }
}

/// Rows of detected local agents are interactive rows (not remote) for
/// agents in scope, carrying the agent's own pane id, focus and status.
pub proof fn lemma_local_rows_in_scope(s: ShellSnapshot, cfg: PanelConfig, machine: Option<Seq<char>>)
    ensures
        forall|k: int|
            0 <= k < spec_local_rows(s, cfg, machine).len() ==> {
                let r = #[trigger] spec_local_rows(s, cfg, machine)[k];
                &&& !r.remote
                &&& r.source matches RowSource::Agent { agent: a, .. } && {
                    &&& 0 <= a < s.agents@.len()
                    &&& spec_agent_matches_scope(
                        s,
                        s.agents@[a as int].workspace_id@,
                        cfg.agent_panel_scope,
                    )
                    &&& r.pane_id == s.agents@[a as int].pane_id@
                    &&& r.focused == s.agents@[a as int].focused
                    &&& r.status == s.agents@[a as int].agent_status
                }
            },
{
    lemma_local_rows_of(
        s,
        cfg.agent_panel_scope,
        machine,
        spec_ordered_agent_pane_ids(s, cfg.agent_panel_sort, cfg.status_ranks),
    );
}

/// In the whole panel, every row that stands for a detected local agent is
/// a local row with that agent's pane id, status and focus: the focused
/// agent's row is the highlighted one.
pub proof fn lemma_agent_rows_follow_their_agents(
    s: ShellSnapshot,
    cfg: PanelConfig,
    machine: Option<Seq<char>>,
    now: Option<i64>,
)
    ensures
        forall|k: int|
            0 <= k < spec_agent_rows(s, cfg, machine, now).len() ==> {
                let r = #[trigger] spec_agent_rows(s, cfg, machine, now)[k];
                r.source matches RowSource::Agent { agent: a, .. } ==> {
                    &&& 0 <= a < s.agents@.len()
                    &&& !r.remote
                    &&& r.pane_id == s.agents@[a as int].pane_id@
                    &&& r.focused == s.agents@[a as int].focused
                    &&& r.status == s.agents@[a as int].agent_status
                }
            },
{
    lemma_local_rows_in_scope(s, cfg, machine);
    lemma_lane_rows_follow_live_presence(s, cfg);
    lemma_remote_rows_are_read_only(s, cfg, now);
    let l = spec_local_rows(s, cfg, machine);
    let t = spec_lane_tab_rows(s, cfg);
    let m = spec_remote_rows(s, cfg, now);
    let all = spec_agent_rows(s, cfg, machine, now);
    assert forall|k: int| 0 <= k < all.len() implies {
        let r = #[trigger] all[k];
        r.source matches RowSource::Agent { agent: a, .. } ==> {
            &&& 0 <= a < s.agents@.len()
            &&& !r.remote
            &&& r.pane_id == s.agents@[a as int].pane_id@
            &&& r.focused == s.agents@[a as int].focused
            &&& r.status == s.agents@[a as int].agent_status
        }
    } by {
        if k < l.len() {
            assert(all[k] == l[k]);
        } else if k < l.len() + t.len() {
            assert(all[k] == t[k - l.len()]);
            assert(lane_row_ok(s, cfg.agent_panel_scope, t[k - l.len()]));
        } else {
            assert(all[k] == m[k - l.len() - t.len()]);
        }
    }
}

/// What every lane-tab row satisfies.
pub open spec fn lane_row_ok(s: ShellSnapshot, scope: AgentPanelScope, r: AgentRowView) -> bool {
    &&& !r.remote
    &&& r.status == AgentStatus::Idle
    &&& r.source matches RowSource::LaneTab { workspace: w, tab: t, pane: p } && {
        &&& 0 <= w < s.workspaces@.len()
        &&& 0 <= t < s.tabs@.len()
        &&& 0 <= p < s.panes@.len()
        &&& spec_agent_matches_scope(s, s.workspaces@[w as int].workspace_id@, scope)
        &&& s.tabs@[t as int].workspace_id@ == s.workspaces@[w as int].workspace_id@
        &&& spec_primary_pane_for_tab(
            s,
            s.workspaces@[w as int].workspace_id@,
            s.tabs@[t as int].tab_id@,
        ) == Some(p as int)
        &&& r.focused == s.panes@[p as int].focused
        &&& r.context == spec_lane_context(s, w as int, t as int, p as int)
        &&& r.pane_id == s.panes@[p as int].pane_id@
        &&& first_index(s.agents@, agent_has_pane(r.pane_id)) is None
        &&& spec_live_presence_covers_lane(
            s,
            s.workspaces@[w as int].label@,
            s.tabs@[t as int].label@,
        )
    }
}

proof fn lemma_insert_by_number_members(t: Seq<int>, x: int, tabs: Seq<ShellTab>)
    ensures
        forall|k: int|
            0 <= k < insert_by_number(t, x, tabs).len() ==> #[trigger] insert_by_number(t, x, tabs)[k]
                == x || t.contains(insert_by_number(t, x, tabs)[k]),
    decreases t.len(),
{
    if t.len() > 0 && tabs[x].number < tabs[t.last()].number {
        let d = t.drop_last();
        lemma_insert_by_number_members(d, x, tabs);
        let r = insert_by_number(d, x, tabs);
        assert forall|k: int| 0 <= k < r.push(t.last()).len() implies #[trigger] r.push(
            t.last(),
        )[k] == x || t.contains(r.push(t.last())[k]) by {
            if k < r.len() {
                if r[k] != x {
                    let m = choose|m: int| 0 <= m < d.len() && d[m] == r[k];
                    assert(t[m] == d[m]);
                }
            } else {
                assert(t[t.len() - 1] == t.last());
            }
        }
    } else if t.len() > 0 {
        assert forall|k: int| 0 <= k < t.push(x).len() implies #[trigger] t.push(x)[k] == x
            || t.contains(t.push(x)[k]) by {
            if k < t.len() {
                assert(t[k] == t.push(x)[k]);
            }
        }
    }
}

proof fn lemma_sort_by_number_members(ts: Seq<int>, tabs: Seq<ShellTab>)
    ensures
        forall|k: int|
            0 <= k < sort_by_number(ts, tabs).len() ==> ts.contains(
                #[trigger] sort_by_number(ts, tabs)[k],
            ),
    decreases ts.len(),
{
    if ts.len() > 0 {
        let d = ts.drop_last();
        lemma_sort_by_number_members(d, tabs);
        let sd = sort_by_number(d, tabs);
        lemma_insert_by_number_members(sd, ts.last(), tabs);
        let r = sort_by_number(ts, tabs);
        assert forall|k: int| 0 <= k < r.len() implies ts.contains(#[trigger] r[k]) by {
            if r[k] == ts.last() {
                assert(ts[ts.len() - 1] == ts.last());
            } else {
                assert(sd.contains(r[k]));
                let m = choose|m: int| 0 <= m < sd.len() && sd[m] == r[k];
                assert(d.contains(sd[m]));
                let j = choose|j: int| 0 <= j < d.len() && d[j] == sd[m];
                assert(ts[j] == d[j]);
            }
        }
    }
}

proof fn lemma_tabs_of_workspace_members(tabs: Seq<ShellTab>, ws: Seq<char>, n: int)
    requires
        n <= tabs.len(),
    ensures
        forall|k: int|
            0 <= k < tabs_of_workspace(tabs, ws, n).len() ==> {
                let t = #[trigger] tabs_of_workspace(tabs, ws, n)[k];
                0 <= t < n && tabs[t].workspace_id@ == ws
            },
    decreases n,
{
    if n > 0 {
        lemma_tabs_of_workspace_members(tabs, ws, n - 1);
        let before = tabs_of_workspace(tabs, ws, n - 1);
        let all = tabs_of_workspace(tabs, ws, n);
        assert forall|k: int| 0 <= k < all.len() implies {
            let t = #[trigger] all[k];
            0 <= t < n && tabs[t].workspace_id@ == ws
        } by {
            if k < before.len() {
                assert(all[k] == before[k]);
            }
        }
    }
}

proof fn lemma_lane_rows_of_tabs(s: ShellSnapshot, scope: AgentPanelScope, w: int, ts: Seq<int>)
    requires
        0 <= w < s.workspaces@.len(),
        spec_agent_matches_scope(s, s.workspaces@[w].workspace_id@, scope),
        forall|k: int|
            0 <= k < ts.len() ==> 0 <= #[trigger] ts[k] < s.tabs@.len() && s.tabs@[ts[k]].workspace_id@
                == s.workspaces@[w].workspace_id@,
    ensures
        forall|k: int|
            0 <= k < lane_rows_of_tabs(s, w, ts).len() ==> lane_row_ok(
                s,
                scope,
                #[trigger] lane_rows_of_tabs(s, w, ts)[k],
            ),
    decreases ts.len(),
{
    if ts.len() > 0 {
        let d = ts.drop_last();
        assert forall|k: int| 0 <= k < d.len() implies 0 <= #[trigger] d[k] < s.tabs@.len()
            && s.tabs@[d[k]].workspace_id@ == s.workspaces@[w].workspace_id@ by {
            assert(d[k] == ts[k]);
        }
        lemma_lane_rows_of_tabs(s, scope, w, d);
        let before = lane_rows_of_tabs(s, w, d);
        let all = lane_rows_of_tabs(s, w, ts);
        let t = ts.last();
        assert(0 <= t < s.tabs@.len() && s.tabs@[t].workspace_id@ == s.workspaces@[w].workspace_id@) by {
            assert(ts[ts.len() - 1] == t);
        }
        lemma_primary_pane_bound(s, s.workspaces@[w].workspace_id@, s.tabs@[t].tab_id@);
        assert(s.workspaces.len() == s.workspaces@.len());
        assert(s.tabs.len() == s.tabs@.len());
        assert(s.panes.len() == s.panes@.len());
        assert forall|k: int| 0 <= k < all.len() implies lane_row_ok(s, scope, #[trigger] all[k]) by {
            if k < before.len() {
                assert(all[k] == before[k]);
            }
        }
    }
}

proof fn lemma_lane_rows_upto(s: ShellSnapshot, scope: AgentPanelScope, n: int)
    requires
        n <= s.workspaces@.len(),
    ensures
        forall|k: int|
            0 <= k < lane_rows_upto(s, scope, n).len() ==> lane_row_ok(
                s,
                scope,
                #[trigger] lane_rows_upto(s, scope, n)[k],
            ),
    decreases n,
{
    if n > 0 {
        lemma_lane_rows_upto(s, scope, n - 1);
        let w = n - 1;
        let ws = s.workspaces@[w];
        let before = lane_rows_upto(s, scope, n - 1);
        let mine = workspace_lane_rows(s, scope, w);
        if spec_agent_matches_scope(s, ws.workspace_id@, scope) {
            let owned = tabs_of_workspace(s.tabs@, ws.workspace_id@, s.tabs@.len() as int);
            let ts = sort_by_number(owned, s.tabs@);
            lemma_tabs_of_workspace_members(s.tabs@, ws.workspace_id@, s.tabs@.len() as int);
            lemma_sort_by_number_members(owned, s.tabs@);
            assert forall|k: int| 0 <= k < ts.len() implies 0 <= #[trigger] ts[k] < s.tabs@.len()
                && s.tabs@[ts[k]].workspace_id@ == s.workspaces@[w].workspace_id@ by {
                assert(owned.contains(ts[k]));
                let m = choose|m: int| 0 <= m < owned.len() && owned[m] == ts[k];
                assert(owned[m] == ts[k]);
            }
            lemma_lane_rows_of_tabs(s, scope, w, ts);
        }
        let all = lane_rows_upto(s, scope, n);
        assert forall|k: int| 0 <= k < all.len() implies lane_row_ok(s, scope, #[trigger] all[k]) by {
            if k < before.len() {
                assert(all[k] == before[k]);
            } else {
                assert(all[k] == mine[k - before.len()]);
            }
        }
    }
}

/// A lane tab gets a row only for the primary pane of a tab of a workspace
/// in scope whose lane a live remote agent runs in the workspace's
/// project, and only when no detected agent already covers that pane; such
/// rows are idle local rows, not remote ones, focused as their pane is and
/// labelled by their workspace, tab and pane.
pub proof fn lemma_lane_rows_follow_live_presence(s: ShellSnapshot, cfg: PanelConfig)
    ensures
        forall|k: int|
            0 <= k < spec_lane_tab_rows(s, cfg).len() ==> lane_row_ok(
                s,
                cfg.agent_panel_scope,
                #[trigger] spec_lane_tab_rows(s, cfg)[k],
            ),
{
    if s.agent_view_label is None {
        lemma_lane_rows_upto(s, cfg.agent_panel_scope, s.workspaces@.len() as int);
    }
}

// ---------------------------------------------------------------------
// Click targets
// ---------------------------------------------------------------------

/// The click targets of placed rows: each placed local row's rectangle with
/// its pane id, in placement order. Remote rows get none.
pub open spec fn spec_hit_targets(rows: Seq<AgentRowView>, placed: Seq<(usize, Rect)>) -> Seq<
    (Rect, Seq<char>),
>
    decreases placed.len(),
{
    if placed.len() == 0 {
        Seq::empty()
    } else {
        let before = spec_hit_targets(rows, placed.drop_last());
        let (index, rect) = placed.last();
        if rows[index as int].remote {
            before
        } else {
            before.push((rect, rows[index as int].pane_id))
        }
    }
}

/// Click targets for the rows placed in the list.
pub fn agent_hit_targets(rows: &Vec<AgentRow>, placed: &Vec<(usize, Rect)>) -> (hits: Vec<
    (Rect, String),
>)
    requires
        forall|k: int| 0 <= k < placed@.len() ==> (#[trigger] placed@[k]).0 < rows@.len(),
    ensures
        hits@.map_values(|h: (Rect, String)| (h.0, h.1@)) == spec_hit_targets(
            rows_view(rows@),
            placed@,
        ),
{
    let mut hits: Vec<(Rect, String)> = Vec::new();
    let mut i: usize = 0;
    while i < placed.len()
        invariant
            i <= placed.len(),
            forall|k: int| 0 <= k < placed@.len() ==> (#[trigger] placed@[k]).0 < rows@.len(),
            hits@.map_values(|h: (Rect, String)| (h.0, h.1@)) == spec_hit_targets(
                rows_view(rows@),
                placed@.take(i as int),
            ),
        decreases placed.len() - i,
    {
        let (index, rect) = placed[i];
        assert(placed@.take(i + 1).drop_last() =~= placed@.take(i as int));
        assert(placed@.take(i + 1).last() == placed@[i as int]);
        assert(placed@[i as int].0 < rows@.len());
        let row = &rows[index];
        if !row.remote {
            let ghost before = hits@;
            let id = row.pane_id.clone();
            hits.push((rect, id));
            assert(hits@.map_values(|h: (Rect, String)| (h.0, h.1@)) =~= before.map_values(
                |h: (Rect, String)| (h.0, h.1@),
            ).push((rect, id@)));
        }
        i = i + 1;
    }
    assert(placed@.take(placed.len() as int) =~= placed@);
    hits
}

/// Read-only rows are never clickable: every click target belongs to a
/// placed local (non-remote) row and carries that row's pane id.
pub proof fn lemma_hit_targets_are_local(rows: Seq<AgentRowView>, placed: Seq<(usize, Rect)>)
    requires
        forall|k: int| 0 <= k < placed.len() ==> (#[trigger] placed[k]).0 < rows.len(),
    ensures
        forall|h: int|
            0 <= h < spec_hit_targets(rows, placed).len() ==> exists|k: int|
                0 <= k < placed.len() && !rows[(#[trigger] placed[k]).0 as int].remote
                    && #[trigger] spec_hit_targets(rows, placed)[h] == (
                    placed[k].1,
                    rows[placed[k].0 as int].pane_id,
                ),
    decreases placed.len(),
{
    if placed.len() > 0 {
        let d = placed.drop_last();
        assert forall|k: int| 0 <= k < d.len() implies (#[trigger] d[k]).0 < rows.len() by {
            assert(d[k] == placed[k]);
        }
        lemma_hit_targets_are_local(rows, d);
        let before = spec_hit_targets(rows, d);
        let all = spec_hit_targets(rows, placed);
        assert forall|h: int| 0 <= h < all.len() implies exists|k: int|
            0 <= k < placed.len() && !rows[(#[trigger] placed[k]).0 as int].remote
                && #[trigger] all[h] == (placed[k].1, rows[placed[k].0 as int].pane_id) by {
            if h < before.len() {
                assert(all[h] == before[h]);
                let k = choose|k: int|
                    0 <= k < d.len() && !rows[(#[trigger] d[k]).0 as int].remote && before[h] == (
                        d[k].1,
                        rows[d[k].0 as int].pane_id,
                    );
                assert(placed[k] == d[k]);
            } else {
                let k = placed.len() - 1;
                assert(placed[k] == placed.last());
            }
        }
    }
}

} // verus!
