use herdr::layout::{agent_panel_plan, agent_row_styles, agent_view_empty_message, CellStyle, PaletteColor, agent_list_plan, agent_row_lines, agent_panel_header_plan, agent_list_body, place_rows, right_aligned_toggle_rects, HeaderPlan, Rect};
use herdr::sidebar::{
    agent_hit_targets, agent_label, agent_matches_scope, agent_panel_remotes_label, agent_panel_scope_label,
    agent_rows, effective_scope_workspace_id, effective_scope_workspace_label,
    lane_tab_agent_rows, live_presence_covers_lane, ordered_agent_pane_ids, primary_pane_for_tab,
    remote_agent_kind, remote_agent_rows, remote_agent_status, remote_presence_matches_scope,
    remote_row_tokens, sidebar_status_text, workspace_has_lane_tab, AgentPanelRemotes,
    AgentPanelScope, AgentPanelSort, AgentStatus, PanelConfig, RowSource, StatusRanks, ShellAgent, ShellPane,
    ShellRemoteAgent, ShellSnapshot, ShellTab, ShellWorkspace, AgentRow, status_rank,
    agent_rows_at, remote_agent_rows_at, state_text, CanonicalAgent, RowContext,
};

fn remote(project: &str) -> ShellRemoteAgent {
    ShellRemoteAgent {
        agent_id: "host-project-lane".into(),
        host: Some("host".into()),
        project: project.into(),
        lane: "lane".into(),
        status: "working".into(),
        user: project.into(),
        cwd: None,
        process_alive: true,
        stream_alive: true,
        last_seen_ts: None,
        session_memo: None,
        context_usage: None,
    }
}

const RANKS: StatusRanks = StatusRanks { idle: 1, working: 2, blocked: 3, done: 0, unknown: 0 };

fn agent(pane: &str, ws: &str, tab: &str, status: AgentStatus, seq: u64) -> ShellAgent {
    ShellAgent {
        pane_id: pane.into(),
        workspace_id: ws.into(),
        tab_id: tab.into(),
        focused: false,
        agent_status: status,
        state_change_seq: seq,
        display_agent: None,
        name: None,
        agent: None,
        title: None,
        state_labels: Vec::new(),
        tokens: Vec::new(),
        terminal_title: None,
        terminal_title_stripped: None,
    }
}

fn pane(id: &str, ws: &str, tab: &str, focused: bool) -> ShellPane {
    ShellPane { pane_id: id.into(), workspace_id: ws.into(), tab_id: tab.into(), focused, label: None }
}

fn workspace(id: &str, label: &str, focused: bool) -> ShellWorkspace {
    ShellWorkspace { workspace_id: id.into(), label: label.into(), focused }
}

fn tab(id: &str, ws: &str, label: &str, number: u64) -> ShellTab {
    ShellTab { tab_id: id.into(), workspace_id: ws.into(), label: label.into(), number }
}

fn empty_snapshot() -> ShellSnapshot {
    ShellSnapshot {
        agent_view_label: None,
        agent_order: Vec::new(),
        agents: Vec::new(),
        panes: Vec::new(),
        workspaces: Vec::new(),
        tabs: Vec::new(),
        focused_workspace_id: None,
        focused_pane_id: None,
        remote_agents: Vec::new(),
    }
}

fn config(scope: AgentPanelScope, remotes: AgentPanelRemotes) -> PanelConfig {
    PanelConfig {
        agent_panel_sort: AgentPanelSort::Spaces,
        status_ranks: RANKS,
        agent_panel_scope: scope,
        agent_panel_remotes: remotes,
        mouse_capture: true,
    }
}

#[test]
fn remote_kind_maps_project_user_and_hrm_presence_without_guessing_host() {
    assert_eq!(remote_agent_kind(&remote("slyce")), "Pi");
    assert_eq!(remote_agent_kind(&remote("herm")), "HRM");
    let mut missing_host = remote("slyce");
    missing_host.host = None;
    assert_eq!(missing_host.host, None);
}

#[test]
fn remote_context_usage_projection_preserves_absence() {
    let mut agent = remote("slyce");
    agent.context_usage = Some("25%".into());
    assert_eq!(agent.context_usage.as_deref(), Some("25%"));
    agent.context_usage = None;
    assert_eq!(agent.context_usage, None);
}

#[test]
fn status_words() {
    assert_eq!(remote_agent_status("working"), AgentStatus::Working);
    assert_eq!(remote_agent_status("blocked"), AgentStatus::Blocked);
    assert_eq!(remote_agent_status("done"), AgentStatus::Done);
    assert_eq!(remote_agent_status("Working"), AgentStatus::Idle);
    assert_eq!(sidebar_status_text(AgentStatus::Unknown), "idle");
    assert_eq!(sidebar_status_text(AgentStatus::Blocked), "blocked");
    assert_eq!(agent_panel_scope_label(AgentPanelScope::ActiveWorkspace), "here");
    assert_eq!(agent_panel_remotes_label(AgentPanelRemotes::Hide), "local");
}

#[test]
fn scope_workspace_falls_back_in_order() {
    let mut s = empty_snapshot();
    s.workspaces = vec![workspace("w1", "alpha", false), workspace("w2", "beta", true)];
    s.panes = vec![pane("p1", "w1", "t1", false)];
    assert_eq!(effective_scope_workspace_id(&s), Some("w2"));
    s.focused_pane_id = Some("p1".into());
    assert_eq!(effective_scope_workspace_id(&s), Some("w1"));
    s.focused_pane_id = Some("missing".into());
    assert_eq!(effective_scope_workspace_id(&s), Some("w2"));
    let mut a = agent("p9", "w3", "t", AgentStatus::Idle, 0);
    a.focused = true;
    s.agents = vec![agent("p8", "w4", "t", AgentStatus::Idle, 0), a];
    assert_eq!(effective_scope_workspace_id(&s), Some("w3"));
    assert_eq!(effective_scope_workspace_label(&s), None);
    s.focused_workspace_id = Some("w1".into());
    assert_eq!(effective_scope_workspace_id(&s), Some("w1"));
    assert_eq!(effective_scope_workspace_label(&s), Some("alpha"));
    assert!(agent_matches_scope(&s, "w1", AgentPanelScope::ActiveWorkspace));
    assert!(!agent_matches_scope(&s, "w2", AgentPanelScope::ActiveWorkspace));
    assert!(agent_matches_scope(&s, "w2", AgentPanelScope::All));
    assert!(remote_presence_matches_scope(&s, "alpha", AgentPanelScope::ActiveWorkspace));
    assert!(!remote_presence_matches_scope(&s, "beta", AgentPanelScope::ActiveWorkspace));
    assert!(agent_matches_scope(&empty_snapshot(), "any", AgentPanelScope::ActiveWorkspace));
}

#[test]
fn priority_order_is_stable_and_descending() {
    let mut s = empty_snapshot();
    s.agents = vec![
        agent("a", "w", "t", AgentStatus::Idle, 5),
        agent("b", "w", "t", AgentStatus::Blocked, 1),
        agent("c", "w", "t", AgentStatus::Idle, 9),
        agent("d", "w", "t", AgentStatus::Blocked, 1),
    ];
    assert_eq!(ordered_agent_pane_ids(&s, AgentPanelSort::Priority, &RANKS), vec!["b", "d", "c", "a"]);
    assert_eq!(ordered_agent_pane_ids(&s, AgentPanelSort::Spaces, &RANKS), vec!["a", "b", "c", "d"]);
    s.agent_view_label = Some("view".into());
    s.agent_order = vec!["d".into(), "zz".into(), "a".into()];
    assert_eq!(ordered_agent_pane_ids(&s, AgentPanelSort::Priority, &RANKS), vec!["d", "a"]);
}

#[test]
fn lane_tabs_and_primary_panes() {
    let mut s = empty_snapshot();
    s.workspaces = vec![workspace("w1", "slyce", true)];
    s.tabs = vec![tab("t2", "w1", "lane", 2), tab("t1", "w1", "other", 1)];
    s.panes = vec![pane("p1", "w1", "t2", false), pane("p2", "w1", "t2", true), pane("p3", "w1", "t1", false)];
    assert_eq!(primary_pane_for_tab(&s, "w1", "t2"), Some(1));
    assert_eq!(primary_pane_for_tab(&s, "w1", "t1"), Some(2));
    assert_eq!(primary_pane_for_tab(&s, "w1", "t9"), None);
    assert!(workspace_has_lane_tab(&s, "slyce", "lane"));
    assert!(!workspace_has_lane_tab(&s, "slyce", "nope"));
    assert!(!workspace_has_lane_tab(&s, "herm", "lane"));
    let mut r = remote("slyce");
    assert!(live_presence_covers_lane(&ShellSnapshot { remote_agents: vec![r.clone_for_test()], ..empty_snapshot() }, "slyce", "lane"));
    r.process_alive = false;
    assert!(!live_presence_covers_lane(&ShellSnapshot { remote_agents: vec![r], ..empty_snapshot() }, "slyce", "lane"));
}

trait CloneForTest {
    fn clone_for_test(&self) -> Self;
}

impl CloneForTest for ShellRemoteAgent {
    fn clone_for_test(&self) -> Self {
        ShellRemoteAgent {
            agent_id: self.agent_id.clone(),
            host: self.host.clone(),
            project: self.project.clone(),
            lane: self.lane.clone(),
            status: self.status.clone(),
            user: self.user.clone(),
            cwd: self.cwd.clone(),
            process_alive: self.process_alive,
            stream_alive: self.stream_alive,
            last_seen_ts: self.last_seen_ts.clone(),
            session_memo: self.session_memo.clone(),
            context_usage: self.context_usage.clone(),
        }
    }
}

#[test]
fn panel_rows_local_then_lanes_then_remotes() {
    let mut s = empty_snapshot();
    s.workspaces = vec![workspace("w1", "slyce", true), workspace("w2", "herm", false)];
    s.tabs = vec![tab("t1", "w1", "perky", 1), tab("t2", "w2", "main", 1)];
    s.panes = vec![pane("p1", "w1", "t1", true), pane("p2", "w2", "t2", false)];
    s.agents = vec![agent("p2", "w2", "t2", AgentStatus::Idle, 0)];
    let mut lane_remote = remote("slyce");
    lane_remote.lane = "perky".into();
    lane_remote.agent_id = "host-slyce-perky".into();
    let mut other_remote = remote("jono");
    other_remote.agent_id = "host-jono-x".into();
    other_remote.status = "blocked".into();
    let mut dead_remote = remote("dublab");
    dead_remote.process_alive = false;
    s.remote_agents = vec![lane_remote, other_remote, dead_remote];

    let cfg = config(AgentPanelScope::All, AgentPanelRemotes::Show);
    let rows = agent_rows(&s, &cfg, None);
    let ids: Vec<&str> = rows.iter().map(|r| r.pane_id.as_str()).collect();
    assert_eq!(ids, vec!["p2", "p1", "remote:host-jono-x"]);
    assert!(!rows[0].remote && !rows[1].remote && rows[2].remote);
    assert_eq!(rows[2].status, AgentStatus::Blocked);
    assert!(rows[1].focused);
    assert!(matches!(rows[0].source, RowSource::Agent { agent: 0, workspace: 1, agent_tab: Some(1), agent_pane: Some(1) }));
    assert!(matches!(rows[1].source, RowSource::LaneTab { workspace: 0, tab: 0, pane: 0 }));
    assert!(matches!(rows[2].source, RowSource::Remote { remote: 1 }));

    let placed = vec![(0, Rect::new(0, 3, 20, 1)), (1, Rect::new(0, 5, 20, 1)), (2, Rect::new(0, 7, 20, 1))];
    let hits = agent_hit_targets(&rows, &placed);
    assert_eq!(hits, vec![(Rect::new(0, 3, 20, 1), "p2".to_string()), (Rect::new(0, 5, 20, 1), "p1".to_string())]);

    let hidden = agent_rows(&s, &config(AgentPanelScope::All, AgentPanelRemotes::Hide), None);
    assert_eq!(hidden.len(), 2);

    let here = agent_rows(&s, &config(AgentPanelScope::ActiveWorkspace, AgentPanelRemotes::Show), None);
    let ids: Vec<&str> = here.iter().map(|r| r.pane_id.as_str()).collect();
    assert_eq!(ids, vec!["p1"]);

    s.agent_view_label = Some("view".into());
    assert!(lane_tab_agent_rows(&s, &cfg).is_empty());
    assert!(remote_agent_rows(&s, &cfg).is_empty());
}

#[test]
fn remote_tokens() {
    let mut r = remote("herm");
    r.session_memo = Some("memo".into());
    r.last_seen_ts = Some("2026-09-14T00:00:00Z".into());
    r.context_usage = Some("25%".into());
    let tokens = remote_row_tokens(&r, Some(1_789_344_120));
    let pairs: Vec<(&str, &str)> = tokens.iter().map(|(k, v)| (k.as_str(), v.as_str())).collect();
    assert_eq!(
        pairs,
        vec![("session_memo", "memo"), ("kind", "HRM"), ("last_seen", "2m ago"), ("context", "25%")]
    );
    r.session_memo = Some(String::new());
    r.last_seen_ts = Some("bad".into());
    let tokens = remote_row_tokens(&r, Some(0));
    assert_eq!(tokens.len(), 2);
    let tokens = remote_row_tokens(&remote("slyce"), None);
    assert_eq!(tokens.len(), 1);
    assert_eq!(tokens[0].1, "Pi");
}

#[test]
fn agent_label_precedence() {
    let mut a = agent("p", "w", "t", AgentStatus::Idle, 0);
    assert_eq!(agent_label(&a), None);
    a.title = Some("title".into());
    assert_eq!(agent_label(&a), Some("title"));
    a.agent = Some("pi".into());
    assert_eq!(agent_label(&a), Some("pi"));
    a.name = Some("name".into());
    assert_eq!(agent_label(&a), Some("name"));
    a.display_agent = Some("shown".into());
    assert_eq!(agent_label(&a), Some("shown"));
}

#[test]
fn header_toggles_are_right_aligned() {
    let area = Rect::new(0, 0, 30, 5);
    let rects = right_aligned_toggle_rects(area, 1, &vec!["grpd", "all", "remotes"]);
    assert_eq!(rects, vec![Rect::new(10, 1, 4, 1), Rect::new(17, 1, 3, 1), Rect::new(23, 1, 7, 1)]);
    let cfg = config(AgentPanelScope::All, AgentPanelRemotes::Show);
    match agent_panel_header_plan(area, None, &cfg) {
        HeaderPlan::Toggles { labels, rects: r, hits, separators } => {
            assert_eq!(labels, vec!["grpd", "all", "remotes"]);
            assert_eq!(r, rects);
            assert_eq!(hits, rects);
            assert_eq!(separators, vec![(14, 3), (20, 3)]);
        }
        _ => panic!("expected toggles"),
    }
    let mut no_mouse = config(AgentPanelScope::All, AgentPanelRemotes::Show);
    no_mouse.mouse_capture = false;
    match agent_panel_header_plan(area, None, &no_mouse) {
        HeaderPlan::Toggles { hits, .. } => assert_eq!(hits, vec![Rect::new(0, 0, 0, 0); 3]),
        _ => panic!("expected toggles"),
    }
    match agent_panel_header_plan(area, Some("agents"), &cfg) {
        HeaderPlan::ViewLabel { rect } => assert_eq!(rect, Rect::new(24, 1, 6, 1)),
        _ => panic!("expected a view label"),
    }
    assert!(matches!(agent_panel_header_plan(Rect::new(0, 0, 30, 0), None, &cfg), HeaderPlan::Hidden));
    assert!(matches!(agent_panel_header_plan(Rect::new(0, 0, 30, 1), None, &cfg), HeaderPlan::RuleOnly));
    // a narrow area clips the toggles at its right edge
    let narrow = right_aligned_toggle_rects(Rect::new(0, 0, 8, 5), 1, &vec!["grpd", "all", "remotes"]);
    assert_eq!(narrow, vec![Rect::new(0, 1, 4, 1), Rect::new(7, 1, 1, 1), Rect::new(8, 1, 0, 1)]);
}

#[test]
fn list_rows_stop_at_the_bottom() {
    let body = agent_list_body(Rect::new(0, 0, 20, 10));
    assert_eq!(body, Rect::new(0, 3, 20, 7));
    let placed = place_rows(body, &vec![2, 0, 3, 1], 1, 0, true);
    assert_eq!(
        placed,
        vec![(0, Rect::new(0, 3, 19, 2)), (1, Rect::new(0, 6, 19, 1))]
    );
    let placed = place_rows(body, &vec![2, 0, 3, 1], 1, 2, false);
    assert_eq!(placed, vec![(2, Rect::new(0, 3, 20, 3)), (3, Rect::new(0, 7, 20, 1))]);
    assert_eq!(agent_list_body(Rect::new(0, 0, 20, 2)), Rect::new(0, 3, 20, 0));
}

#[test]
fn list_plan_scrolls_and_reserves_the_scrollbar_column() {
    let area = Rect::new(0, 0, 20, 10);
    let plan = agent_list_plan(area, &vec![2, 2, 2, 2], 1, true, 3, 1);
    assert_eq!(plan.body, Rect::new(0, 3, 20, 7));
    assert_eq!(plan.scroll_top, 2);
    assert!(!plan.show_message);
    assert_eq!(plan.placed, vec![(2, Rect::new(0, 3, 19, 2)), (3, Rect::new(0, 6, 19, 2))]);
    assert_eq!(plan.scrollbar, Some(Rect::new(19, 3, 1, 7)));

    let plan = agent_list_plan(area, &vec![], 1, true, 0, 0);
    assert!(plan.show_message);
    assert_eq!(plan.scroll_top, 0);
    assert!(plan.placed.is_empty());
    let plan = agent_list_plan(Rect::new(0, 0, 20, 3), &vec![1], 1, true, 0, 0);
    assert!(!plan.show_message);
    assert!(plan.placed.is_empty());
    let plan = agent_list_plan(area, &vec![1, 1], 0, false, 0, 0);
    assert_eq!(plan.scrollbar, None);
    assert_eq!(plan.placed, vec![(0, Rect::new(0, 3, 20, 1)), (1, Rect::new(0, 4, 20, 1))]);

    let lines = agent_row_lines(Rect::new(2, 5, 10, 2), 3);
    assert_eq!(lines, vec![(1, 9, Rect::new(2, 5, 10, 1)), (3, 7, Rect::new(2, 6, 10, 1))]);
    let lines = agent_row_lines(Rect::new(2, 5, 2, 4), 0);
    assert_eq!(lines, vec![(1, 1, Rect::new(2, 5, 2, 1))]);
}

#[test]
fn equal_statuses_rank_equally_and_ranks_come_from_the_table() {
    assert_eq!(status_rank(&RANKS, AgentStatus::Blocked), 3);
    assert_eq!(status_rank(&RANKS, AgentStatus::Done), 0);
    let mut s = empty_snapshot();
    s.agents = vec![
        agent("w1", "w", "t", AgentStatus::Working, 1),
        agent("d1", "w", "t", AgentStatus::Done, 7),
        agent("w2", "w", "t", AgentStatus::Working, 4),
    ];
    assert_eq!(ordered_agent_pane_ids(&s, AgentPanelSort::Priority, &RANKS), vec!["w2", "w1", "d1"]);
    let done_first = StatusRanks { idle: 0, working: 0, blocked: 0, done: 9, unknown: 0 };
    assert_eq!(ordered_agent_pane_ids(&s, AgentPanelSort::Priority, &done_first), vec!["d1", "w2", "w1"]);
}

#[test]
fn header_at_the_last_row_only_draws_its_rule() {
    let cfg = config(AgentPanelScope::All, AgentPanelRemotes::Show);
    let last_row = Rect { x: 0, y: 65535, width: 30, height: 0 };
    assert!(matches!(agent_panel_header_plan(last_row, None, &cfg), HeaderPlan::Hidden));
    let last_row = Rect { height: 1, ..last_row };
    assert!(matches!(agent_panel_header_plan(last_row, None, &cfg), HeaderPlan::RuleOnly));
}

fn row(id: &str, focused: bool, remote: bool) -> AgentRow {
    AgentRow {
        pane_id: id.into(),
        status: AgentStatus::Working,
        focused,
        remote,
        source: RowSource::Remote { remote: 0 },
        context: RowContext {
            machine: None,
            workspace: "w".into(),
            tab: None,
            pane: None,
            agent_label: None,
            terminal_title: None,
            terminal_title_stripped: None,
            canonical_agent: None,
            tokens: Vec::new(),
            state_text: "working".into(),
        },
    }
}

#[test]
fn row_styles_follow_focus_and_remoteness() {
    let plain = CellStyle { fg: None, bg: None, bold: false, dim: false, italic: false };
    let focused = agent_row_styles(&row("a", true, false));
    assert_eq!(focused.line, CellStyle { bg: Some(PaletteColor::ActiveRowBg), ..plain });
    assert_eq!(focused.name, CellStyle { fg: Some(PaletteColor::Text), bold: true, ..plain });
    assert_eq!(focused.status, CellStyle { fg: Some(PaletteColor::Status(AgentStatus::Working)), ..plain });
    assert_eq!(focused.icon, focused.status);
    let remote_row = agent_row_styles(&row("r", false, true));
    assert_eq!(remote_row.line, plain);
    assert_eq!(
        remote_row.name,
        CellStyle { fg: Some(PaletteColor::Subtext0), bold: true, dim: true, italic: true, ..plain }
    );
    assert_eq!(
        remote_row.status,
        CellStyle { fg: Some(PaletteColor::Status(AgentStatus::Working)), dim: true, ..plain }
    );
    assert_eq!(remote_row.secondary, CellStyle { fg: Some(PaletteColor::Overlay0), dim: true, ..plain });
}

#[test]
fn panel_draws_its_list_only_below_a_full_header() {
    let cfg = config(AgentPanelScope::All, AgentPanelRemotes::Show);
    let rows = vec![row("p1", true, false), row("remote:x", false, true)];
    let lines = vec![1, 1];
    let plan = agent_panel_plan(Rect::new(0, 0, 20, 10), None, &cfg, &rows, &lines, 0, 0, 0);
    assert!(matches!(plan.header, HeaderPlan::Toggles { .. }));
    let list = plan.list.expect("a list below the header");
    assert_eq!(list.placed, vec![(0, Rect::new(0, 3, 20, 1)), (1, Rect::new(0, 4, 20, 1))]);
    assert_eq!(plan.hits, vec![(Rect::new(0, 3, 20, 1), "p1".to_string())]);
    assert_eq!(plan.empty_message, None);

    let plan = agent_panel_plan(Rect::new(0, 0, 20, 1), None, &cfg, &rows, &lines, 0, 0, 0);
    assert!(matches!(plan.header, HeaderPlan::RuleOnly));
    assert!(plan.list.is_none());
    assert!(plan.hits.is_empty());

    let plan = agent_panel_plan(Rect::new(0, 0, 20, 10), Some("view"), &cfg, &vec![], &vec![], 0, 0, 0);
    assert_eq!(plan.empty_message, Some(" no matching agents"));
    assert_eq!(agent_view_empty_message(), " no matching agents");
    assert!(plan.list.expect("a list below the header").show_message);
}

#[test]
fn rows_carry_their_display_context() {
    let mut s = empty_snapshot();
    s.workspaces = vec![workspace("w1", "slyce", true), workspace("w2", "herm", false)];
    s.tabs = vec![tab("t1", "w1", "perky", 1), tab("t2", "w2", "main", 1)];
    let mut lane_pane = pane("p1", "w1", "t1", true);
    lane_pane.label = Some("editor".into());
    let mut agent_pane = pane("p2", "w2", "t2", false);
    agent_pane.label = Some("shell".into());
    s.panes = vec![lane_pane, agent_pane];
    let mut a = agent("p2", "w2", "t2", AgentStatus::Idle, 0);
    a.name = Some("nm".into());
    a.agent = Some("codex".into());
    a.state_labels = vec![
        (AgentStatus::Idle, "resting".into()),
        (AgentStatus::Working, "busy".into()),
        (AgentStatus::Idle, "napping".into()),
    ];
    a.tokens = vec![("k".into(), "v".into())];
    a.terminal_title = Some("vim".into());
    s.agents = vec![a];
    let mut lane_remote = remote("slyce");
    lane_remote.lane = "perky".into();
    lane_remote.agent_id = "host-slyce-perky".into();
    let mut other_remote = remote("jono");
    other_remote.agent_id = "host-jono-x".into();
    other_remote.status = "blocked".into();
    other_remote.last_seen_ts = Some("2026-09-14T00:00:00Z".into());
    s.remote_agents = vec![lane_remote, other_remote];

    let cfg = config(AgentPanelScope::All, AgentPanelRemotes::Show);
    let rows = agent_rows_at(&s, &cfg, Some("mac"), Some(1_789_344_120));
    assert_eq!(rows.len(), 3);

    let local = &rows[0].context;
    assert_eq!(local.machine.as_deref(), Some("mac"));
    assert_eq!(local.workspace, "herm");
    assert_eq!(local.tab.as_deref(), Some("main"));
    assert_eq!(local.pane.as_deref(), Some("shell"));
    assert_eq!(local.agent_label.as_deref(), Some("nm"));
    assert_eq!(local.terminal_title.as_deref(), Some("vim"));
    assert_eq!(local.terminal_title_stripped, None);
    assert!(matches!(&local.canonical_agent, Some(CanonicalAgent::Named(n)) if n == "codex"));
    assert_eq!(local.tokens, vec![("k".to_string(), "v".to_string())]);
    assert_eq!(local.state_text, "napping");
    assert_eq!(state_text(&s.agents[0]), "napping");
    let mut titled = agent("p2", "w2", "t2", AgentStatus::Working, 0);
    titled.title = Some("title".into());
    assert_eq!(state_text(&titled), "working");
    s.agents.push(titled);
    s.agents.swap(0, 1);
    let rows_titled = agent_rows_at(&s, &cfg, None, None);
    assert_eq!(rows_titled[0].context.pane.as_deref(), Some("title"));
    assert_eq!(rows_titled[0].context.machine, None);
    s.agents.swap(0, 1);
    s.agents.pop();

    let lane = &rows[1].context;
    assert_eq!(rows[1].pane_id, "p1");
    assert_eq!(lane.machine, None);
    assert_eq!(lane.workspace, "slyce");
    assert_eq!(lane.tab.as_deref(), Some("perky"));
    assert_eq!(lane.pane.as_deref(), Some("editor"));
    assert_eq!(lane.agent_label.as_deref(), Some("perky"));
    assert!(lane.canonical_agent.is_none());
    assert!(lane.tokens.is_empty());
    assert_eq!(lane.state_text, "idle");

    let far = &rows[2].context;
    assert_eq!(rows[2].pane_id, "remote:host-jono-x");
    assert_eq!(far.machine.as_deref(), Some("host"));
    assert_eq!(far.workspace, "jono");
    assert_eq!(far.tab.as_deref(), Some("lane"));
    assert_eq!(far.pane, None);
    assert_eq!(far.agent_label.as_deref(), Some("lane"));
    assert!(matches!(far.canonical_agent, Some(CanonicalAgent::Pi)));
    assert_eq!(
        far.tokens,
        vec![("kind".to_string(), "Pi".to_string()), ("last_seen".to_string(), "2m ago".to_string())]
    );
    assert_eq!(far.state_text, "blocked");

    let remotes = remote_agent_rows_at(&s, &cfg, None);
    assert_eq!(remotes.len(), 1);
    assert_eq!(remotes[0].context.tokens, vec![("kind".to_string(), "Pi".to_string())]);
    let herm_remote = remote("herm");
    s.remote_agents = vec![herm_remote];
    let remotes = remote_agent_rows_at(&s, &cfg, None);
    assert!(remotes[0].context.canonical_agent.is_none());
    assert_eq!(remote_agent_rows(&s, &cfg).len(), 1);
}
