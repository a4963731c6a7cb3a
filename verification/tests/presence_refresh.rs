use herdr::presence::RemoteAgent;
use herdr::presence_refresh::{parse_u64, refresh_interval_ms, App, DEFAULT_PRESENCE_POLL_MS};

fn remote(id: &str) -> RemoteAgent {
    RemoteAgent {
        agent_id: id.into(),
        host: Some("herm-b".into()),
        project: "slyce".into(),
        lane: "perky-e9fb".into(),
        status: "idle".into(),
        user: "slyce".into(),
        cwd: None,
        process_alive: true,
        stream_alive: true,
        last_seen_ts: None,
        lifecycle: Some("active".into()),
        idle: Some(false),
        session_memo: None,
        context_usage: None,
    }
}

fn state(agents: Vec<RemoteAgent>) -> App {
    let mut s = App::new(0, agents);
    s.presence_in_flight = true;
    s
}

#[test]
fn handle_presence_refreshed_replaces_and_renders() {
    let mut app = state(vec![remote("herm-b-slyce-a")]);
    let changed = app.handle_presence_refreshed(Ok(vec![remote("herm-b-slyce-b")]), 10);
    assert!(changed);
    assert_eq!(app.remote_agents.len(), 1);
    assert_eq!(app.remote_agents[0].agent_id, "herm-b-slyce-b");
    assert!(!app.presence_in_flight);
    assert!(app.render_dirty);
}

#[test]
fn handle_presence_refreshed_ok_empty_clears_stale_rows() {
    let mut app = state(vec![remote("herm-b-slyce-a")]);
    let changed = app.handle_presence_refreshed(Ok(Vec::new()), 10);
    assert!(changed);
    assert!(app.remote_agents.is_empty());
}

#[test]
fn handle_presence_refreshed_err_keeps_last_known_on_outage() {
    let mut app = state(vec![remote("herm-b-slyce-a")]);
    let changed = app.handle_presence_refreshed(Err("outage".to_string()), 10);
    assert!(!changed);
    assert_eq!(app.remote_agents.len(), 1);
    assert!(!app.presence_in_flight);
    assert_eq!(app.last_presence_refresh_ms, 10);
    assert!(!app.render_dirty);
}

#[test]
fn identical_result_is_not_a_change() {
    let mut app = state(vec![remote("herm-b-slyce-a")]);
    assert!(!app.handle_presence_refreshed(Ok(vec![remote("herm-b-slyce-a")]), 5));
    let mut other = remote("herm-b-slyce-a");
    other.context_usage = Some("25%".into());
    assert!(app.handle_presence_refreshed(Ok(vec![other]), 6));
    assert_eq!(app.remote_agents[0].context_usage.as_deref(), Some("25%"));
}

#[test]
fn refresh_starts_only_when_due_and_idle() {
    let mut app = App::new(1_000, Vec::new());
    assert_eq!(app.presence_refresh_deadline(15_000), Some(16_000));
    assert!(!app.start_presence_refresh_if_due(15_999, 15_000));
    assert!(!app.presence_in_flight);
    assert!(app.start_presence_refresh_if_due(16_000, 15_000));
    assert!(app.presence_in_flight);
    assert_eq!(app.presence_refresh_deadline(15_000), None);
    assert!(!app.start_presence_refresh_if_due(99_999, 15_000));
    app.handle_presence_refreshed(Err("x".into()), 20_000);
    assert_eq!(app.presence_refresh_deadline(15_000), Some(35_000));
}

#[test]
fn poll_interval_setting() {
    assert_eq!(refresh_interval_ms(None), DEFAULT_PRESENCE_POLL_MS);
    assert_eq!(refresh_interval_ms(Some("250")), 250);
    assert_eq!(refresh_interval_ms(Some("+7")), 7);
    assert_eq!(refresh_interval_ms(Some("")), 15_000);
    assert_eq!(refresh_interval_ms(Some("-1")), 15_000);
    assert_eq!(refresh_interval_ms(Some(" 5")), 15_000);
    assert_eq!(refresh_interval_ms(Some("18446744073709551616")), 15_000);
    assert_eq!(parse_u64("18446744073709551615"), Some(u64::MAX));
    assert_eq!(parse_u64("+"), None);
    assert_eq!(parse_u64("007"), Some(7));
}

#[test]
fn redraw_is_requested_only_on_a_change() {
    let mut app = state(vec![remote("herm-b-slyce-a")]);
    assert!(!app.handle_presence_refreshed(Ok(vec![remote("herm-b-slyce-a")]), 5));
    assert!(!app.render_dirty);
    assert!(app.handle_presence_refreshed(Ok(Vec::new()), 6));
    assert!(app.render_dirty);
}

#[test]
fn deadline_saturates_at_the_largest_reading() {
    let mut app = App::new(u64::MAX - 10, Vec::new());
    assert_eq!(app.presence_refresh_deadline(u64::MAX), Some(u64::MAX));
    assert!(!app.start_presence_refresh_if_due(u64::MAX - 1, 100));
    assert!(app.start_presence_refresh_if_due(u64::MAX, 100));
}
