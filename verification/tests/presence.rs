use herdr::presence::{
    context_usage, derive_lane, derive_user, project_presence, JsonField, Payload, PresenceRow,
    RemoteAgent, UsageFields,
};

fn row(agent_id: &str, project: &str, alive: bool) -> PresenceRow {
    PresenceRow {
        agent_id: agent_id.into(),
        project: Some(project.into()),
        host: Some("herm-b".into()),
        lane: None,
        cwd: Some("/home/project".into()),
        user: None,
        effective_status: Some("idle".into()),
        last_status: Some("idle".into()),
        process_alive: Some(alive),
        stream_alive: Some(alive),
        last_seen_ts: Some("2026-08-18T20:00:00Z".into()),
        lifecycle: if alive { Some("active".into()) } else { Some("detached_recent".into()) },
        idle: Some(!alive),
        session_memo: None,
        runtime: None,
        context: None,
    }
}

fn bare_row(agent_id: &str) -> PresenceRow {
    PresenceRow {
        agent_id: agent_id.into(),
        project: None,
        host: None,
        lane: None,
        cwd: None,
        user: None,
        effective_status: None,
        last_status: None,
        process_alive: None,
        stream_alive: None,
        last_seen_ts: None,
        lifecycle: None,
        idle: None,
        session_memo: None,
        runtime: None,
        context: None,
    }
}

/// Every field a projected agent carries, as (name, value) pairs. The
/// destructuring lists all fields, so a new field fails to compile here.
fn agent_fields(agent: &RemoteAgent) -> serde_json::Map<String, serde_json::Value> {
    let RemoteAgent {
        agent_id,
        host,
        project,
        lane,
        status,
        user,
        cwd,
        process_alive,
        stream_alive,
        last_seen_ts,
        lifecycle,
        idle,
        session_memo,
        context_usage,
    } = agent;
    let mut map = serde_json::Map::new();
    let text = |v: &Option<String>| match v {
        Some(s) => serde_json::Value::String(s.clone()),
        None => serde_json::Value::Null,
    };
    map.insert("agent_id".into(), serde_json::Value::String(agent_id.clone()));
    map.insert("host".into(), text(host));
    map.insert("project".into(), serde_json::Value::String(project.clone()));
    map.insert("lane".into(), serde_json::Value::String(lane.clone()));
    map.insert("status".into(), serde_json::Value::String(status.clone()));
    map.insert("user".into(), serde_json::Value::String(user.clone()));
    map.insert("cwd".into(), text(cwd));
    map.insert("process_alive".into(), serde_json::Value::Bool(*process_alive));
    map.insert("stream_alive".into(), serde_json::Value::Bool(*stream_alive));
    map.insert("last_seen_ts".into(), text(last_seen_ts));
    map.insert("lifecycle".into(), text(lifecycle));
    map.insert(
        "idle".into(),
        match idle {
            Some(b) => serde_json::Value::Bool(*b),
            None => serde_json::Value::Null,
        },
    );
    map.insert("session_memo".into(), text(session_memo));
    map.insert("context_usage".into(), text(context_usage));
    map
}

#[test]
fn parse_presence_body_filters_stale_unless_recent() {
    let live = row("herm-b-slyce-perky-e9fb", "slyce", true);
    let stale = row("herm-b-slyce-jazzy-3701", "slyce", false);
    let rows = vec![stale, live];

    let live_only = project_presence(&rows, false);
    assert_eq!(live_only.len(), 1);
    assert_eq!(live_only[0].agent_id, "herm-b-slyce-perky-e9fb");

    let with_recent = project_presence(&rows, true);
    assert_eq!(with_recent.len(), 2);
}

#[test]
fn remote_agent_never_exposes_pane_id() {
    let row = PresenceRow {
        agent_id: "herm-b-slyce-perky-e9fb".into(),
        project: Some("slyce".into()),
        host: Some("herm-b".into()),
        lane: None,
        cwd: None,
        user: None,
        effective_status: Some("working".into()),
        last_status: None,
        process_alive: Some(true),
        stream_alive: Some(true),
        last_seen_ts: None,
        lifecycle: Some("active".into()),
        idle: Some(false),
        session_memo: None,
        runtime: None,
        context: None,
    };
    let agent = RemoteAgent::from_row(row);
    assert_eq!(agent.project, "slyce");
    assert_eq!(agent.host.as_deref(), Some("herm-b"));
    assert_eq!(agent.user, "slyce");
    assert_eq!(agent.lane, "perky-e9fb");
    assert!(agent_fields(&agent).get("pane_id").is_none());
    assert!(agent_fields(&agent).get("session_id").is_none());
}

#[test]
fn presence_context_usage_is_projected_without_forwarding_raw_payload() {
    let mut row = row("herm-b-slyce-perky-e9fb", "slyce", true);
    row.context = Some(Payload::Object(UsageFields {
        context_used: Some(JsonField::Unsigned(50)),
        context_limit: Some(JsonField::Unsigned(200)),
        context_percent: None,
        percent: None,
    }));
    let agent = RemoteAgent::from_row(row);
    assert_eq!(agent.context_usage.as_deref(), Some("25%"));
    let value = agent_fields(&agent);
    assert!(value.get("context").is_none());
    assert!(value.get("runtime").is_none());
}

#[test]
fn derive_lane_and_user_match_canonical_rule() {
    assert_eq!(derive_lane("herm-b-slyce-perky-e9fb", Some("slyce")), "perky-e9fb");
    assert_eq!(derive_lane("herm-b-herm-hackdaddy", Some("herm")), "hackdaddy");
    assert_eq!(derive_lane("sebluair-herm-groovy-16be", Some("herm")), "groovy-16be");
    assert_eq!(derive_lane("kooky-b9a3", None), "b9a3");
    let mut from_suffix_only_api = bare_row("sebluair-herm-groovy-16be");
    from_suffix_only_api.project = Some("herm".into());
    from_suffix_only_api.host = Some("sebluair".into());
    from_suffix_only_api.lane = Some("16be".into());
    from_suffix_only_api.effective_status = Some("idle".into());
    from_suffix_only_api.process_alive = Some(true);
    from_suffix_only_api.stream_alive = Some(true);
    from_suffix_only_api.lifecycle = Some("active".into());
    from_suffix_only_api.idle = Some(false);
    let agent = RemoteAgent::from_row(from_suffix_only_api);
    assert_eq!(agent.lane, "groovy-16be");
    assert_eq!(derive_user(Some("slyce"), "herm-b-slyce-perky-e9fb"), "slyce");
    assert_eq!(derive_user(Some("herm"), "herm-b-herm-hackdaddy"), "herm");
}

#[test]
fn derive_lane_falls_back_to_dash_parts() {
    // marker absent: four or more parts keep the parts from the fourth on
    assert_eq!(derive_lane("a-b-c-d-e", Some("zz")), "d-e");
    // marker at the end with nothing after it is ignored
    assert_eq!(derive_lane("host-x-proj-", Some("proj")), "");
    assert_eq!(derive_lane("one-two", Some("")), "two");
    assert_eq!(derive_lane("single", None), "single");
    assert_eq!(derive_lane("", None), "");
    // first occurrence of the marker wins
    assert_eq!(derive_lane("h-p-x-p-y", Some("p")), "x-p-y");
}

#[test]
fn derive_user_without_project_uses_second_to_last_part() {
    assert_eq!(derive_user(None, "herm-b-slyce-perky-e9fb"), "perky");
    assert_eq!(derive_user(None, "a-b"), "herm");
    assert_eq!(derive_user(None, "x-y-z"), "y");
}

#[test]
fn explicit_lane_wins_unless_derived_lane_ends_with_it() {
    let mut r = row("herm-b-slyce-perky-e9fb", "slyce", true);
    r.lane = Some("custom".into());
    assert_eq!(RemoteAgent::from_row(r).lane, "custom");
    let mut r = row("herm-b-slyce-perky-e9fb", "slyce", true);
    r.lane = Some("e9fb".into());
    assert_eq!(RemoteAgent::from_row(r).lane, "perky-e9fb");
    let mut r = row("herm-b-slyce-perky-e9fb", "slyce", true);
    r.lane = Some(String::new());
    assert_eq!(RemoteAgent::from_row(r).lane, "perky-e9fb");
}

#[test]
fn projection_defaults() {
    let agent = RemoteAgent::from_row(bare_row("host-lane"));
    assert_eq!(agent.project, "herm");
    assert_eq!(agent.status, "idle");
    assert_eq!(agent.user, "herm");
    assert_eq!(agent.lane, "lane");
    assert!(!agent.process_alive);
    assert!(!agent.stream_alive);
    let mut r = bare_row("host-lane");
    r.last_status = Some("blocked".into());
    r.user = Some(String::new());
    r.project = Some("acme".into());
    let agent = RemoteAgent::from_row(r);
    assert_eq!(agent.status, "blocked");
    assert_eq!(agent.user, "acme");
}

#[test]
fn liveness_follows_process_or_lifecycle() {
    let mut r = bare_row("x");
    assert!(!r.is_live());
    r.lifecycle = Some("active".into());
    assert!(r.is_live());
    r.lifecycle = Some("stopped".into());
    r.process_alive = Some(true);
    assert!(r.is_live());
    r.process_alive = Some(false);
    assert!(!r.is_live());
}

fn usage_row(context: Option<Payload>, runtime: Option<Payload>) -> PresenceRow {
    let mut r = bare_row("x");
    r.context = context;
    r.runtime = runtime;
    r
}

fn fields(
    used: Option<JsonField>,
    limit: Option<JsonField>,
    context_percent: Option<JsonField>,
    percent: Option<JsonField>,
) -> Payload {
    Payload::Object(UsageFields { context_used: used, context_limit: limit, context_percent, percent })
}

#[test]
fn context_usage_sources_in_order() {
    assert_eq!(context_usage(&usage_row(None, None)), None);
    // zero limit falls through to the percent keys
    let p = fields(Some(JsonField::Unsigned(5)), Some(JsonField::Unsigned(0)), None, Some(JsonField::Unsigned(7)));
    assert_eq!(context_usage(&usage_row(Some(p), None)).as_deref(), Some("7%"));
    // a text percent is shown as is, an empty one is skipped
    let p = fields(None, None, Some(JsonField::Text(String::new())), Some(JsonField::Text("42%".into())));
    assert_eq!(context_usage(&usage_row(Some(p), None)).as_deref(), Some("42%"));
    // context wins over runtime; runtime is used when context gives nothing
    let c = fields(None, None, Some(JsonField::Unsigned(10)), None);
    let r = fields(None, None, Some(JsonField::Unsigned(90)), None);
    assert_eq!(context_usage(&usage_row(Some(c), Some(r))).as_deref(), Some("10%"));
    let r = fields(None, None, None, Some(JsonField::Unsigned(90)));
    assert_eq!(context_usage(&usage_row(Some(Payload::NotObject), Some(r))).as_deref(), Some("90%"));
    // other values are ignored
    let p = fields(Some(JsonField::Other), Some(JsonField::Unsigned(3)), Some(JsonField::Other), None);
    assert_eq!(context_usage(&usage_row(Some(p), None)), None);
    // the product saturates before the division
    let p = fields(Some(JsonField::Unsigned(u64::MAX)), Some(JsonField::Unsigned(u64::MAX)), None, None);
    assert_eq!(context_usage(&usage_row(Some(p), None)).as_deref(), Some("1%"));
    let p = fields(Some(JsonField::Unsigned(1)), Some(JsonField::Unsigned(3)), None, None);
    assert_eq!(context_usage(&usage_row(None, Some(p))).as_deref(), Some("33%"));
}

#[test]
fn projected_rows_are_sorted_by_project_lane_and_id() {
    let rows = vec![
        row("h-zeta-b", "zeta", true),
        row("h-alpha-y", "alpha", true),
        row("h-alpha-x-2", "alpha", true),
        row("h-alpha-x-1", "alpha", true),
        row("h-Alpha-q", "Alpha", true),
    ];
    let out = project_presence(&rows, false);
    let ids: Vec<&str> = out.iter().map(|a| a.agent_id.as_str()).collect();
    assert_eq!(ids, vec!["h-Alpha-q", "h-alpha-x-1", "h-alpha-x-2", "h-alpha-y", "h-zeta-b"]);
}

#[test]
fn lanes_are_suffixes_of_the_id_and_empty_projects_count_as_none() {
    let cases = [
        ("herm-b-slyce-perky-e9fb", Some("slyce")),
        ("herm-b-slyce-perky-e9fb", Some("missing")),
        ("host-proj-", Some("proj")),
        ("a-b-c-d-e", None),
        ("a-b", None),
        ("single", None),
        ("", None),
        ("--", Some("")),
    ];
    for (id, project) in cases {
        let lane = derive_lane(id, project);
        assert!(id.ends_with(&lane), "{id} / {lane}");
        assert_eq!(derive_lane(id, Some("")), derive_lane(id, None));
    }
    assert_eq!(derive_lane("host-proj-", Some("proj")), "proj-");
    assert_eq!(derive_lane("a-b-c-d-e", None), "d-e");
}
