//! The read-only presence feed of project-user agents.
//!
//! Rows come from the cross-tenant presence endpoint; the sidebar only
//! observes them. A row is projected into a [`RemoteAgent`] that carries no
//! pane id or control token: only the display surface survives.
use vstd::prelude::*;
use crate::text::{
    chars_of, clone_opt_string, decimal, find_first, first_occurrence, occurs_at, join_from, join_with,
    owned, push_char, push_decimal, seq_lt, split_chars, split_on, str_eq, str_lt,
    string_eq, string_of, suffix_from, lemma_seq_lt_trichotomy, lemma_seq_lt_transitive,
    lemma_first_occurrence_occurs,
};

verus! {

// ---------------------------------------------------------------------
// Data
// ---------------------------------------------------------------------

/// One value of a structured heartbeat object, reduced to what the
/// sidebar reads from it.
pub enum JsonField {
    /// A number that fits `u64`.
    Unsigned(u64),
    /// A string.
    Text(String),
    /// Anything else (negative or fractional numbers, objects, ...).
    Other,
}

/// The keys of a heartbeat object that carry context usage.
pub struct UsageFields {
    pub context_used: Option<JsonField>,
    pub context_limit: Option<JsonField>,
    pub context_percent: Option<JsonField>,
    pub percent: Option<JsonField>,
}

/// A structured heartbeat payload (`runtime` or `context`).
pub enum Payload {
    /// A JSON object.
    Object(UsageFields),
    /// Any other JSON value.
    NotObject,
}

/// One row of the presence feed. Pane ids, session ids and control tokens
/// that the wire may carry have no place here.
pub struct PresenceRow {
    pub agent_id: String,
    pub project: Option<String>,
    pub host: Option<String>,
    pub lane: Option<String>,
    pub cwd: Option<String>,
    pub user: Option<String>,
    pub effective_status: Option<String>,
    pub last_status: Option<String>,
    pub process_alive: Option<bool>,
    pub stream_alive: Option<bool>,
    pub last_seen_ts: Option<String>,
    pub lifecycle: Option<String>,
    pub idle: Option<bool>,
    pub session_memo: Option<String>,
    pub runtime: Option<Payload>,
    pub context: Option<Payload>,
}

/// A projected, read-only remote agent ready for the sidebar.
pub struct RemoteAgent {
    pub agent_id: String,
    pub host: Option<String>,
    pub project: String,
    pub lane: String,
    pub status: String,
    pub user: String,
    pub cwd: Option<String>,
    pub process_alive: bool,
    pub stream_alive: bool,
    pub last_seen_ts: Option<String>,
    pub lifecycle: Option<String>,
    pub idle: Option<bool>,
    pub session_memo: Option<String>,
    pub context_usage: Option<String>,
}

/// The mathematical content of a [`RemoteAgent`].
pub struct RemoteAgentView {
    pub agent_id: Seq<char>,
    pub host: Option<Seq<char>>,
    pub project: Seq<char>,
    pub lane: Seq<char>,
    pub status: Seq<char>,
    pub user: Seq<char>,
    pub cwd: Option<Seq<char>>,
    pub process_alive: bool,
    pub stream_alive: bool,
    pub last_seen_ts: Option<Seq<char>>,
    pub lifecycle: Option<Seq<char>>,
    pub idle: Option<bool>,
    pub session_memo: Option<Seq<char>>,
    pub context_usage: Option<Seq<char>>,
}

impl View for RemoteAgent {
    type V = RemoteAgentView;

    open spec fn view(&self) -> RemoteAgentView {
        RemoteAgentView {
            agent_id: self.agent_id@,
            host: self.host.deep_view(),
            project: self.project@,
            lane: self.lane@,
            status: self.status@,
            user: self.user@,
            cwd: self.cwd.deep_view(),
            process_alive: self.process_alive,
            stream_alive: self.stream_alive,
            last_seen_ts: self.last_seen_ts.deep_view(),
            lifecycle: self.lifecycle.deep_view(),
            idle: self.idle,
            session_memo: self.session_memo.deep_view(),
            context_usage: self.context_usage.deep_view(),
        }
    }
}

/// The views of a sequence of remote agents.
pub open spec fn agents_view(s: Seq<RemoteAgent>) -> Seq<RemoteAgentView> {
    s.map_values(|a: RemoteAgent| a@)
}

// ---------------------------------------------------------------------
// Specifications
// ---------------------------------------------------------------------

pub open spec fn herm_text() -> Seq<char> {
    seq!['h', 'e', 'r', 'm']
}

pub open spec fn idle_text() -> Seq<char> {
    seq!['i', 'd', 'l', 'e']
}

pub open spec fn active_text() -> Seq<char> {
    seq!['a', 'c', 't', 'i', 'v', 'e']
}

pub open spec fn ends_with(s: Seq<char>, suffix: Seq<char>) -> bool {
    suffix.len() <= s.len() && s.subrange(s.len() - suffix.len(), s.len() as int) == suffix
}

/// The lane after `-{project}-` in an agent id, when that marker occurs and
/// something follows its first occurrence.
pub open spec fn lane_after_project(agent_id: Seq<char>, project: Seq<char>) -> Option<Seq<char>> {
    let marker = seq!['-'] + project + seq!['-'];
    match first_occurrence(agent_id, marker, 0) {
        Some(i) => {
            let rest = agent_id.subrange(i + marker.len(), agent_id.len() as int);
            if rest.len() > 0 {
                Some(rest)
            } else {
                None
            }
        },
        None => None,
    }
}

/// The lane of an agent id: the part after `-{project}-` when the project
/// is known and non-empty and the marker occurs with something after it;
/// else the dash-separated parts from the fourth on when there are at least
/// four, from the second on when there are at least two, else the id.
pub open spec fn spec_derive_lane(agent_id: Seq<char>, project: Option<Seq<char>>) -> Seq<char> {
    let by_project = match project {
        Some(p) => if p.len() > 0 {
            lane_after_project(agent_id, p)
        } else {
            None
        },
        None => None,
    };
    match by_project {
        Some(lane) => lane,
        None => {
            let parts = split_on(agent_id, '-');
            if parts.len() >= 4 {
                join_with(parts.subrange(3, parts.len() as int), '-')
            } else if parts.len() >= 2 {
                join_with(parts.subrange(1, parts.len() as int), '-')
            } else {
                agent_id
            }
        },
    }
}

/// The OS user of a project-user agent: the project for non-herm projects,
/// `herm` for herm; with no project, the second-to-last dash-separated part
/// of the id when there are at least three parts, else `herm`.
pub open spec fn spec_derive_user(project: Option<Seq<char>>, agent_id: Seq<char>) -> Seq<char> {
    match project {
        Some(p) => if p != herm_text() {
            p
        } else {
            herm_text()
        },
        None => {
            let parts = split_on(agent_id, '-');
            if parts.len() >= 3 {
                parts[parts.len() - 2]
            } else {
                herm_text()
            }
        },
    }
}

/// `used * 100`, saturating at `u64::MAX`.
pub open spec fn saturating_percent_numerator(used: u64) -> nat {
    if used * 100 > u64::MAX {
        u64::MAX as nat
    } else {
        (used * 100) as nat
    }
}

/// The usage a single `context_percent` / `percent` value denotes.
pub open spec fn usage_from_key(value: Option<JsonField>) -> Option<Seq<char>> {
    match value {
        Some(JsonField::Unsigned(n)) => Some(decimal(n as nat).push('%')),
        Some(JsonField::Text(s)) => if s@.len() > 0 {
            Some(s@)
        } else {
            None
        },
        _ => None,
    }
}

/// The usage a heartbeat object denotes: `used * 100 / limit` percent when
/// both are unsigned numbers and the limit is not zero, else the first of
/// `context_percent` and `percent` that gives one.
pub open spec fn usage_from_fields(f: UsageFields) -> Option<Seq<char>> {
    match (f.context_used, f.context_limit) {
        (Some(JsonField::Unsigned(used)), Some(JsonField::Unsigned(limit))) if limit != 0 => Some(
            decimal(saturating_percent_numerator(used) / (limit as nat)).push('%'),
        ),
        _ => match usage_from_key(f.context_percent) {
            Some(u) => Some(u),
            None => usage_from_key(f.percent),
        },
    }
}

pub open spec fn usage_from_payload(p: Option<Payload>) -> Option<Seq<char>> {
    match p {
        Some(Payload::Object(f)) => usage_from_fields(f),
        _ => None,
    }
}

/// Context usage of a row: from its `context` payload first, then from its
/// `runtime` payload.
pub open spec fn spec_context_usage(row: PresenceRow) -> Option<Seq<char>> {
    match usage_from_payload(row.context) {
        Some(u) => Some(u),
        None => usage_from_payload(row.runtime),
    }
}

/// A row is live when its process is alive or its lifecycle is `active`.
pub open spec fn spec_is_live(row: PresenceRow) -> bool {
    row.process_alive == Some(true) || row.lifecycle.deep_view() == Some(active_text())
}

/// The lane shown for a row: the lane derived from the id when the feed
/// gives no (or an empty) lane, or when the derived lane equals the feed's
/// lane or ends with `-{lane}`; the feed's lane otherwise.
pub open spec fn spec_row_lane(row: PresenceRow) -> Seq<char> {
    let derived = spec_derive_lane(row.agent_id@, row.project.deep_view());
    match row.lane {
        Some(l) => if l@.len() > 0 {
            if derived == l@ || ends_with(derived, seq!['-'] + l@) {
                derived
            } else {
                l@
            }
        } else {
            derived
        },
        None => derived,
    }
}

/// The projection of a presence row.
pub open spec fn spec_from_row(row: PresenceRow) -> RemoteAgentView {
    RemoteAgentView {
        agent_id: row.agent_id@,
        host: row.host.deep_view(),
        project: match row.project {
            Some(p) => p@,
            None => herm_text(),
        },
        lane: spec_row_lane(row),
        status: match row.effective_status {
            Some(s) => s@,
            None => match row.last_status {
                Some(s) => s@,
                None => idle_text(),
            },
        },
        user: match row.user {
            Some(u) => if u@.len() > 0 {
                u@
            } else {
                spec_derive_user(row.project.deep_view(), row.agent_id@)
            },
            None => spec_derive_user(row.project.deep_view(), row.agent_id@),
        },
        cwd: row.cwd.deep_view(),
        process_alive: match row.process_alive {
            Some(b) => b,
            None => false,
        },
        stream_alive: match row.stream_alive {
            Some(b) => b,
            None => false,
        },
        last_seen_ts: row.last_seen_ts.deep_view(),
        lifecycle: row.lifecycle.deep_view(),
        idle: row.idle,
        session_memo: row.session_memo.deep_view(),
        context_usage: spec_context_usage(row),
    }
}

/// The rows kept (all of them with `include_recent`, else the live ones),
/// projected, in feed order.
pub open spec fn kept_projection(rows: Seq<PresenceRow>, include_recent: bool) -> Seq<
    RemoteAgentView,
>
    decreases rows.len(),
{
    if rows.len() == 0 {
        Seq::empty()
    } else {
        let before = kept_projection(rows.drop_last(), include_recent);
        if include_recent || spec_is_live(rows.last()) {
            before.push(spec_from_row(rows.last()))
        } else {
            before
        }
    }
}

/// Strict order of agents by project, then lane, then agent id.
pub open spec fn agent_key_lt(a: RemoteAgentView, b: RemoteAgentView) -> bool {
    ||| seq_lt(a.project, b.project)
    ||| (a.project == b.project && seq_lt(a.lane, b.lane))
    ||| (a.project == b.project && a.lane == b.lane && seq_lt(a.agent_id, b.agent_id))
}

/// `sorted` with `x` placed after every element that does not sort after it.
pub open spec fn insert_sorted(sorted: Seq<RemoteAgentView>, x: RemoteAgentView) -> Seq<
    RemoteAgentView,
>
    decreases sorted.len(),
{
    if sorted.len() == 0 {
        seq![x]
    } else if agent_key_lt(x, sorted.last()) {
        insert_sorted(sorted.drop_last(), x).push(sorted.last())
    } else {
        sorted.push(x)
    }
}

/// The stable sort of `s` by (project, lane, agent id).
pub open spec fn sort_agents(s: Seq<RemoteAgentView>) -> Seq<RemoteAgentView>
    decreases s.len(),
{
    if s.len() == 0 {
        Seq::empty()
    } else {
        insert_sorted(sort_agents(s.drop_last()), s.last())
    }
}

/// The agents a feed yields for the sidebar.
pub open spec fn spec_project_presence(rows: Seq<PresenceRow>, include_recent: bool) -> Seq<
    RemoteAgentView,
> {
    sort_agents(kept_projection(rows, include_recent))
}

// ---------------------------------------------------------------------
// Lemmas
// ---------------------------------------------------------------------

/// Inserting at position `j` equals `insert_sorted` when everything from `j`
/// on sorts after `x` and the element before `j` does not.
proof fn lemma_insert_at(t: Seq<RemoteAgentView>, x: RemoteAgentView, j: int)
    requires
        0 <= j <= t.len(),
        forall|k: int| j <= k < t.len() ==> agent_key_lt(x, #[trigger] t[k]),
        j > 0 ==> !agent_key_lt(x, t[j - 1]),
    ensures
        insert_sorted(t, x) == t.take(j).push(x) + t.skip(j),
    decreases t.len(),
{
    if t.len() == 0 {
        assert(t.take(j).push(x) + t.skip(j) =~= seq![x]);
    } else if j == t.len() {
        assert(t.take(j).push(x) + t.skip(j) =~= t.push(x));
    } else {
        assert(agent_key_lt(x, t[t.len() - 1]));
        let d = t.drop_last();
        assert forall|k: int| j <= k < d.len() implies agent_key_lt(x, #[trigger] d[k]) by {
            assert(d[k] == t[k]);
        }
        lemma_insert_at(d, x, j);
        assert(t.take(j).push(x) + t.skip(j) =~= (d.take(j).push(x) + d.skip(j)).push(t.last()));
    }
}

proof fn lemma_key_lt_total(a: RemoteAgentView, b: RemoteAgentView)
    ensures
        !(agent_key_lt(a, b) && agent_key_lt(b, a)),
{
    lemma_seq_lt_trichotomy(a.project, b.project);
    lemma_seq_lt_trichotomy(a.lane, b.lane);
    lemma_seq_lt_trichotomy(a.agent_id, b.agent_id);
}

proof fn lemma_key_lt_transitive(a: RemoteAgentView, b: RemoteAgentView, c: RemoteAgentView)
    requires
        agent_key_lt(a, b),
        agent_key_lt(b, c),
    ensures
        agent_key_lt(a, c),
{
    lemma_seq_lt_trichotomy(a.project, b.project);
    lemma_seq_lt_trichotomy(b.project, c.project);
    lemma_seq_lt_trichotomy(a.lane, b.lane);
    lemma_seq_lt_trichotomy(b.lane, c.lane);
    if seq_lt(a.project, b.project) && seq_lt(b.project, c.project) {
        lemma_seq_lt_transitive(a.project, b.project, c.project);
    }
    if a.project == b.project && b.project == c.project {
        if seq_lt(a.lane, b.lane) && seq_lt(b.lane, c.lane) {
            lemma_seq_lt_transitive(a.lane, b.lane, c.lane);
        }
        if a.lane == b.lane && b.lane == c.lane {
            lemma_seq_lt_transitive(a.agent_id, b.agent_id, c.agent_id);
        }
    }
}

/// No element of `s` sorts before an element that comes earlier.
pub open spec fn agents_sorted(s: Seq<RemoteAgentView>) -> bool {
    forall|i: int, j: int| 0 <= i < j < s.len() ==> !agent_key_lt(#[trigger] s[j], #[trigger] s[i])
}

proof fn lemma_insert_sorted_keeps_order(t: Seq<RemoteAgentView>, x: RemoteAgentView)
    requires
        agents_sorted(t),
    ensures
        agents_sorted(insert_sorted(t, x)),
        insert_sorted(t, x).to_multiset() == t.to_multiset().insert(x),
        insert_sorted(t, x).len() == t.len() + 1,
    decreases t.len(),
{
    broadcast use vstd::multiset::group_multiset_axioms;
    broadcast use vstd::seq_lib::group_to_multiset_ensures;
    if t.len() == 0 {
        assert(seq![x] =~= Seq::<RemoteAgentView>::empty().push(x));
    } else if agent_key_lt(x, t.last()) {
        let d = t.drop_last();
        assert(agents_sorted(d)) by {
            assert forall|i: int, j: int| 0 <= i < j < d.len() implies !agent_key_lt(
                #[trigger] d[j],
                #[trigger] d[i],
            ) by {
                assert(d[i] == t[i] && d[j] == t[j]);
            }
        }
        lemma_insert_sorted_keeps_order(d, x);
        let r = insert_sorted(d, x);
        let out = r.push(t.last());
        assert forall|i: int, j: int| 0 <= i < j < out.len() implies !agent_key_lt(
            #[trigger] out[j],
            #[trigger] out[i],
        ) by {
            if j == out.len() - 1 {
                // out[i] is in d or is x; neither sorts after t.last()
                assert(r.to_multiset().count(out[i]) > 0) by {
                    assert(r.contains(out[i]));
                }
                if out[i] == x {
                    lemma_key_lt_total(x, t.last());
                } else {
                    assert(d.to_multiset().count(out[i]) > 0);
                    assert(d.contains(out[i]));
                    let k = choose|k: int| 0 <= k < d.len() && d[k] == out[i];
                    assert(t[k] == d[k]);
                    assert(!agent_key_lt(t[t.len() - 1], t[k]));
                }
            }
        }
        assert(t =~= d.push(t.last()));
    } else {
        let out = t.push(x);
        assert forall|i: int, j: int| 0 <= i < j < out.len() implies !agent_key_lt(
            #[trigger] out[j],
            #[trigger] out[i],
        ) by {
            if j == out.len() - 1 {
                if i < t.len() - 1 {
                    assert(!agent_key_lt(t[t.len() - 1], t[i]));
                    if agent_key_lt(x, t[i]) {
                        lemma_seq_lt_trichotomy(x.project, t[i].project);
                        lemma_key_lt_total(x, t[i]);
                        // x < t[i] <= t.last() would give x < t.last()
                        if agent_key_lt(t[i], t[t.len() - 1]) {
                            lemma_key_lt_transitive(x, t[i], t[t.len() - 1]);
                        } else {
                            lemma_key_not_lt_both(t[i], t[t.len() - 1], x);
                        }
                    }
                }
            } else {
                assert(out[i] == t[i] && out[j] == t[j]);
            }
        }
    }
}

/// If neither of `a`, `b` sorts before the other, they have equal keys, so
/// anything that sorts before `a` sorts before `b`.
proof fn lemma_key_not_lt_both(a: RemoteAgentView, b: RemoteAgentView, x: RemoteAgentView)
    requires
        !agent_key_lt(a, b),
        !agent_key_lt(b, a),
        agent_key_lt(x, a),
    ensures
        agent_key_lt(x, b),
{
    lemma_seq_lt_trichotomy(a.project, b.project);
    lemma_seq_lt_trichotomy(a.lane, b.lane);
    lemma_seq_lt_trichotomy(a.agent_id, b.agent_id);
}

/// The feed projection is ordered by (project, lane, agent id) and holds
/// exactly the kept rows' projections.
pub proof fn lemma_sort_agents_sorted_permutation(s: Seq<RemoteAgentView>)
    ensures
        agents_sorted(sort_agents(s)),
        sort_agents(s).to_multiset() == s.to_multiset(),
        sort_agents(s).len() == s.len(),
    decreases s.len(),
{
    broadcast use vstd::multiset::group_multiset_axioms;
    broadcast use vstd::seq_lib::group_to_multiset_ensures;
    if s.len() > 0 {
        lemma_sort_agents_sorted_permutation(s.drop_last());
        lemma_insert_sorted_keeps_order(sort_agents(s.drop_last()), s.last());
        assert(s =~= s.drop_last().push(s.last()));
    }
}

/// With `include_recent`, every row of the feed yields one agent.
pub proof fn lemma_recent_keeps_every_row(rows: Seq<PresenceRow>)
    ensures
        spec_project_presence(rows, true).len() == rows.len(),
    decreases rows.len(),
{
    lemma_kept_len(rows);
    lemma_sort_agents_sorted_permutation(kept_projection(rows, true));
}

proof fn lemma_kept_len(rows: Seq<PresenceRow>)
    ensures
        kept_projection(rows, true).len() == rows.len(),
    decreases rows.len(),
{
    if rows.len() > 0 {
        lemma_kept_len(rows.drop_last());
    }
}

proof fn lemma_kept_from_live(rows: Seq<PresenceRow>)
    ensures
        forall|k: int|
            0 <= k < kept_projection(rows, false).len() ==> exists|i: int|
                0 <= i < rows.len() && spec_is_live(#[trigger] rows[i]) && spec_from_row(rows[i])
                    == #[trigger] kept_projection(rows, false)[k],
    decreases rows.len(),
{
    if rows.len() > 0 {
        let d = rows.drop_last();
        lemma_kept_from_live(d);
        let kd = kept_projection(d, false);
        let kr = kept_projection(rows, false);
        assert forall|k: int| 0 <= k < kr.len() implies exists|i: int|
            0 <= i < rows.len() && spec_is_live(#[trigger] rows[i]) && spec_from_row(rows[i])
                == #[trigger] kr[k] by {
            if k < kd.len() {
                assert(kr[k] == kd[k]);
                let i = choose|i: int|
                    0 <= i < d.len() && spec_is_live(#[trigger] d[i]) && spec_from_row(d[i])
                        == kd[k];
                assert(rows[i] == d[i]);
            } else {
                assert(spec_is_live(rows[rows.len() - 1]));
                assert(spec_from_row(rows[rows.len() - 1]) == kr[k]);
            }
        }
    }
}

/// By default (without `include_recent`) only live rows reach the
/// sidebar: every agent shown is the projection of a live row.
pub proof fn lemma_default_feed_shows_only_live_rows(rows: Seq<PresenceRow>)
    ensures
        forall|k: int|
            0 <= k < spec_project_presence(rows, false).len() ==> exists|i: int|
                0 <= i < rows.len() && spec_is_live(#[trigger] rows[i]) && spec_from_row(rows[i])
                    == #[trigger] spec_project_presence(rows, false)[k],
{
    broadcast use vstd::multiset::group_multiset_axioms;
    broadcast use vstd::seq_lib::group_to_multiset_ensures;
    let kept = kept_projection(rows, false);
    let out = spec_project_presence(rows, false);
    lemma_sort_agents_sorted_permutation(kept);
    lemma_kept_from_live(rows);
    assert forall|k: int| 0 <= k < out.len() implies exists|i: int|
        0 <= i < rows.len() && spec_is_live(#[trigger] rows[i]) && spec_from_row(rows[i])
            == #[trigger] out[k] by {
        assert(out.to_multiset().count(out[k]) > 0) by {
            assert(out.contains(out[k]));
        }
        assert(kept.contains(out[k]));
        let m = choose|m: int| 0 <= m < kept.len() && kept[m] == out[k];
        assert(kept[m] == out[k]);
    }
}

/// Appending one character to the last part appends it to the join.
proof fn lemma_join_with_extend_last(q: Seq<Seq<char>>, sep: char, c: char)
    requires
        q.len() > 0,
    ensures
        join_with(q.update(q.len() - 1, q.last().push(c)), sep) == join_with(q, sep).push(c),
{
    let r = q.update(q.len() - 1, q.last().push(c));
    if q.len() > 1 {
        assert(r.drop_last() =~= q.drop_last());
        assert(join_with(r, sep) =~= join_with(q, sep).push(c));
    }
}

/// A suffix stays a suffix when both end with one more character.
proof fn lemma_ends_with_push(s: Seq<char>, t: Seq<char>, c: char)
    requires
        ends_with(s, t),
    ensures
        ends_with(s.push(c), t.push(c)),
{
    let a = s.push(c);
    let b = t.push(c);
    assert(a.subrange(a.len() - b.len(), a.len() as int) =~= b);
}

/// The parts of a split from part `k` on (not the first), joined again,
/// are a suffix of the split text.
proof fn lemma_join_tail_is_suffix(s: Seq<char>, sep: char, k: int)
    requires
        1 <= k < split_on(s, sep).len(),
    ensures
        ends_with(s, join_with(split_on(s, sep).subrange(k, split_on(s, sep).len() as int), sep)),
    decreases s.len(),
{
    let parts = split_on(s, sep);
    let n = parts.len() as int;
    let tail = parts.subrange(k, n);
    if s.len() > 0 {
        let p = split_on(s.drop_last(), sep);
        let m = p.len() as int;
        lemma_split_on_nonempty(s.drop_last(), sep);
        if s.last() == sep {
            if k == m {
                assert(tail =~= seq![Seq::<char>::empty()]);
                assert(ends_with(s, join_with(tail, sep))) by {
                    assert(s.subrange(s.len() as int, s.len() as int) =~= Seq::<char>::empty());
                }
            } else {
                lemma_join_tail_is_suffix(s.drop_last(), sep, k);
                let t = p.subrange(k, m);
                assert(tail.drop_last() =~= t);
                assert(join_with(tail, sep) =~= join_with(t, sep).push(sep));
                lemma_ends_with_push(s.drop_last(), join_with(t, sep), sep);
                assert(s.drop_last().push(sep) =~= s);
            }
        } else {
            lemma_join_tail_is_suffix(s.drop_last(), sep, k);
            let t = p.subrange(k, m);
            assert(tail =~= t.update(t.len() - 1, t.last().push(s.last())));
            lemma_join_with_extend_last(t, sep, s.last());
            lemma_ends_with_push(s.drop_last(), join_with(t, sep), s.last());
            assert(s.drop_last().push(s.last()) =~= s);
        }
    }
}

proof fn lemma_split_on_nonempty(s: Seq<char>, sep: char)
    ensures
        split_on(s, sep).len() >= 1,
    decreases s.len(),
{
    if s.len() > 0 {
        lemma_split_on_nonempty(s.drop_last(), sep);
    }
}

proof fn lemma_live_rows_are_kept(rows: Seq<PresenceRow>, i: int)
    requires
        0 <= i < rows.len(),
        spec_is_live(rows[i]),
    ensures
        kept_projection(rows, false).contains(spec_from_row(rows[i])),
    decreases rows.len(),
{
    let d = rows.drop_last();
    if i < rows.len() - 1 {
        assert(d[i] == rows[i]);
        lemma_live_rows_are_kept(d, i);
        let kd = kept_projection(d, false);
        let k = choose|k: int| 0 <= k < kd.len() && kd[k] == spec_from_row(rows[i]);
        assert(kept_projection(rows, false)[k] == kd[k]);
    } else {
        let kr = kept_projection(rows, false);
        assert(kr[kr.len() - 1] == spec_from_row(rows[i]));
    }
}

/// Without `include_recent` the feed still keeps every row whose process
/// is alive and every row whose lifecycle is `active`, whatever its process
/// flag says; and it keeps no row that is neither.
pub proof fn lemma_default_feed_keeps_alive_and_active_rows(rows: Seq<PresenceRow>, i: int)
    requires
        0 <= i < rows.len(),
    ensures
        (rows[i].process_alive == Some(true) || rows[i].lifecycle.deep_view() == Some(
            "active"@,
        )) ==> spec_project_presence(rows, false).contains(spec_from_row(rows[i])),
        rows[i].lifecycle.deep_view() == Some("active"@) ==> spec_is_live(rows[i]),
        !spec_is_live(rows[i]) ==> rows[i].process_alive != Some(true)
            && rows[i].lifecycle.deep_view() != Some("active"@),
{
    broadcast use vstd::multiset::group_multiset_axioms;
    broadcast use vstd::seq_lib::group_to_multiset_ensures;
    assert(active_text() == "active"@) by {
        reveal_strlit("active");
    }
    if spec_is_live(rows[i]) {
        lemma_live_rows_are_kept(rows, i);
        let kept = kept_projection(rows, false);
        lemma_sort_agents_sorted_permutation(kept);
        assert(kept.to_multiset().count(spec_from_row(rows[i])) > 0);
        assert(spec_project_presence(rows, false).to_multiset().count(spec_from_row(rows[i])) > 0);
    }
}

/// A projected agent shows the user the feed gives when that user is
/// non-empty; only an absent or empty user is derived from the project and
/// agent id.
pub proof fn lemma_feed_user_is_kept(row: PresenceRow)
    ensures
        (row.user matches Some(u) && u@.len() > 0) ==> spec_from_row(row).user == row.user->0@,
        !(row.user matches Some(u) && u@.len() > 0) ==> spec_from_row(row).user == spec_derive_user(
            row.project.deep_view(),
            row.agent_id@,
        ),
        (row.user is None && row.project is Some && row.project->0@ != "herm"@) ==> spec_from_row(
            row,
        ).user == row.project->0@,
{
    assert(herm_text() == "herm"@) by {
        reveal_strlit("herm");
    }
}

/// The lane derived from an agent id is always a suffix of the id, and an
/// empty project is treated as no project.
pub proof fn lemma_lane_is_suffix_of_id(agent_id: Seq<char>, project: Option<Seq<char>>)
    ensures
        ends_with(agent_id, spec_derive_lane(agent_id, project)),
        spec_derive_lane(agent_id, Some(Seq::empty())) == spec_derive_lane(agent_id, None),
{
    let lane = spec_derive_lane(agent_id, project);
    let by_project = match project {
        Some(p) => if p.len() > 0 {
            lane_after_project(agent_id, p)
        } else {
            None
        },
        None => None,
    };
    match by_project {
        Some(l) => {
            let p = project->0;
            let marker = seq!['-'] + p + seq!['-'];
            let i = first_occurrence(agent_id, marker, 0)->0;
            lemma_first_occurrence_occurs(agent_id, marker, 0);
            assert(agent_id.subrange(agent_id.len() - l.len(), agent_id.len() as int) =~= l);
        },
        None => {
            let parts = split_on(agent_id, '-');
            if parts.len() >= 4 {
                lemma_join_tail_is_suffix(agent_id, '-', 3);
            } else if parts.len() >= 2 {
                lemma_join_tail_is_suffix(agent_id, '-', 1);
            } else {
                assert(agent_id.subrange(0, agent_id.len() as int) =~= agent_id);
            }
        },
    }
}

// ---------------------------------------------------------------------
// Executable code
// ---------------------------------------------------------------------

fn herm() -> (s: String)
    ensures
        s@ == herm_text(),
{
    let s = owned("herm");
    proof {
        reveal_strlit("herm");
    }
    assert(s@ =~= herm_text());
    s
}

fn idle() -> (s: String)
    ensures
        s@ == idle_text(),
{
    let s = owned("idle");
    proof {
        reveal_strlit("idle");
    }
    assert(s@ =~= idle_text());
    s
}

impl PresenceRow {
    /// True when the agent is currently live (process alive or lifecycle
    /// active). Used to filter stale rows from the default sidebar view.
    pub fn is_live(&self) -> (live: bool)
        ensures
            live == spec_is_live(*self),
    {
        if self.process_alive == Some(true) {
            return true;
        }
        match &self.lifecycle {
            Some(l) => {
                proof {
                    reveal_strlit("active");
                }
                let r = str_eq(l.as_str(), "active");
                assert(r == (l@ == active_text())) by {
                    assert("active"@ =~= active_text());
                }
                r
            },
            None => false,
        }
    }
}

/// Derive a lane from an agent id.
///
/// Prefer splitting on `-{project}-` so single-token hosts keep the nickname
/// (`sebluair-herm-groovy-16be` → `groovy-16be`) and hyphenated hosts still
/// work (`herm-b-slyce-perky-e9fb` → `perky-e9fb`). Falls back to the
/// host-token heuristic, then the raw id.
pub fn derive_lane(agent_id: &str, project: Option<&str>) -> (lane: String)
    ensures
        lane@ == spec_derive_lane(
            agent_id@,
            match project {
                Some(p) => Some(p@),
                None => None,
            },
        ),
{
    let id = chars_of(agent_id);
    if let Some(p) = project {
        if !p.is_empty() {
            let mut marker: Vec<char> = Vec::new();
            marker.push('-');
            let pc = chars_of(p);
            let mut k: usize = 0;
            while k < pc.len()
                invariant
                    k <= pc.len(),
                    marker@ == seq!['-'] + pc@.take(k as int),
                decreases pc.len() - k,
            {
                marker.push(pc[k]);
                k = k + 1;
                assert(marker@ =~= seq!['-'] + pc@.take(k as int));
            }
            marker.push('-');
            assert(marker@ =~= seq!['-'] + p@ + seq!['-']);
            match find_first(&id, &marker) {
                Some(i) => {
                    assert(occurs_at(id@, marker@, i as int));
                    let mlen = marker.len();
                    let idlen = id.len();
                    assert(i + mlen <= idlen);
                    let start = i + mlen;
                    if start < id.len() {
                        let rest = suffix_from(&id, start);
                        return string_of(&rest);
                    }
                },
                None => {},
            }
        }
    }
    let parts = split_chars(&id, '-');
    if parts.len() >= 4 {
        let lane = join_from(&parts, 3, '-');
        return string_of(&lane);
    }
    if parts.len() >= 2 {
        let lane = join_from(&parts, 1, '-');
        return string_of(&lane);
    }
    owned(agent_id)
}

/// The OS user running a project-user agent: the project slug for non-herm
/// projects, `herm` for herm agents. Falls back to `herm` when unknown.
pub fn derive_user(project: Option<&str>, agent_id: &str) -> (user: String)
    ensures
        user@ == spec_derive_user(
            match project {
                Some(p) => Some(p@),
                None => None,
            },
            agent_id@,
        ),
{
    match project {
        Some(p) => {
            proof {
                reveal_strlit("herm");
            }
            if !str_eq(p, "herm") {
                assert(p@ != herm_text()) by {
                    assert("herm"@ =~= herm_text());
                }
                owned(p)
            } else {
                herm()
            }
        },
        None => {
            let id = chars_of(agent_id);
            let parts = split_chars(&id, '-');
            if parts.len() >= 3 {
                let part = &parts[parts.len() - 2];
                string_of(part)
            } else {
                herm()
            }
        },
    }
}

fn usage_from_key_exec(value: &Option<JsonField>) -> (out: Option<String>)
    ensures
        out.deep_view() == usage_from_key(*value),
{
    match value {
        Some(JsonField::Unsigned(n)) => {
            let mut s = String::new();
            push_decimal(&mut s, *n);
            push_char(&mut s, '%');
            assert(s@ =~= decimal(*n as nat).push('%'));
            Some(s)
        },
        Some(JsonField::Text(t)) => {
            if t.as_str().is_empty() {
                None
            } else {
                Some(t.clone())
            }
        },
        _ => None,
    }
}

fn usage_from_fields_exec(f: &UsageFields) -> (out: Option<String>)
    ensures
        out.deep_view() == usage_from_fields(*f),
{
    if let (Some(JsonField::Unsigned(used)), Some(JsonField::Unsigned(limit))) = (
        &f.context_used,
        &f.context_limit,
    ) {
        if *limit != 0 {
            let numerator: u64 = match used.checked_mul(100) {
                Some(v) => v,
                None => u64::MAX,
            };
            let percent = numerator / *limit;
            let mut s = String::new();
            push_decimal(&mut s, percent);
            push_char(&mut s, '%');
            assert(s@ =~= decimal(saturating_percent_numerator(*used) / (*limit as nat)).push(
                '%',
            ));
            return Some(s);
        }
    }
    match usage_from_key_exec(&f.context_percent) {
        Some(u) => Some(u),
        None => usage_from_key_exec(&f.percent),
    }
}

fn usage_from_payload_exec(p: &Option<Payload>) -> (out: Option<String>)
    ensures
        out.deep_view() == usage_from_payload(*p),
{
    match p {
        Some(Payload::Object(f)) => usage_from_fields_exec(f),
        _ => None,
    }
}

/// Context usage shown for a row, from its `context` payload first and its
/// `runtime` payload second. Raw payloads are never forwarded.
pub fn context_usage(row: &PresenceRow) -> (out: Option<String>)
    ensures
        out.deep_view() == spec_context_usage(*row),
{
    match usage_from_payload_exec(&row.context) {
        Some(u) => Some(u),
        None => usage_from_payload_exec(&row.runtime),
    }
}

fn ends_with_exec(s: &Vec<char>, suffix: &Vec<char>) -> (out: bool)
    ensures
        out == ends_with(s@, suffix@),
{
    if suffix.len() > s.len() {
        return false;
    }
    let start = s.len() - suffix.len();
    let tail = suffix_from(s, start);
    crate::text::chars_eq(&tail, suffix)
}

fn row_lane(row: &PresenceRow) -> (lane: String)
    ensures
        lane@ == spec_row_lane(*row),
{
    let project: Option<&str> = match &row.project {
        Some(p) => Some(p.as_str()),
        None => None,
    };
    let derived = derive_lane(row.agent_id.as_str(), project);
    assert(derived@ == spec_derive_lane(row.agent_id@, row.project.deep_view()));
    match &row.lane {
        Some(api_lane) => {
            if api_lane.as_str().is_empty() {
                return derived;
            }
            if string_eq(&derived, api_lane) {
                return derived;
            }
            let dv = chars_of(derived.as_str());
            let mut suffix: Vec<char> = Vec::new();
            suffix.push('-');
            let lv = chars_of(api_lane.as_str());
            push_all(&mut suffix, &lv);
            assert(suffix@ =~= seq!['-'] + api_lane@);
            if ends_with_exec(&dv, &suffix) {
                derived
            } else {
                api_lane.clone()
            }
        },
        None => derived,
    }
}

fn push_all(out: &mut Vec<char>, v: &Vec<char>)
    ensures
        final(out)@ == old(out)@ + v@,
{
    let ghost start = out@;
    let mut i: usize = 0;
    while i < v.len()
        invariant
            i <= v.len(),
            out@ == start + v@.take(i as int),
        decreases v.len() - i,
    {
        out.push(v[i]);
        i = i + 1;
        assert(out@ =~= start + v@.take(i as int));
    }
    assert(v@.take(v.len() as int) =~= v@);
}

impl RemoteAgent {
    /// Project a presence row for the sidebar.
    pub fn from_row(row: PresenceRow) -> (agent: RemoteAgent)
        ensures
            agent@ == spec_from_row(row),
    {
        project_row(&row)
    }
}

/// Project a presence row held by reference.
pub fn project_row(row: &PresenceRow) -> (agent: RemoteAgent)
    ensures
        agent@ == spec_from_row(*row),
{
    let project = match &row.project {
        Some(p) => p.clone(),
        None => herm(),
    };
    let lane = row_lane(row);
    let status = match &row.effective_status {
        Some(s) => s.clone(),
        None => match &row.last_status {
            Some(s) => s.clone(),
            None => idle(),
        },
    };
    let project_ref: Option<&str> = match &row.project {
        Some(p) => Some(p.as_str()),
        None => None,
    };
    let user = match &row.user {
        Some(u) => if u.as_str().is_empty() {
            derive_user(project_ref, row.agent_id.as_str())
        } else {
            u.clone()
        },
        None => derive_user(project_ref, row.agent_id.as_str()),
    };
    let usage = context_usage(row);
    RemoteAgent {
        agent_id: row.agent_id.clone(),
        host: clone_opt_string(&row.host),
        project,
        lane,
        status,
        user,
        cwd: clone_opt_string(&row.cwd),
        process_alive: match row.process_alive {
            Some(b) => b,
            None => false,
        },
        stream_alive: match row.stream_alive {
            Some(b) => b,
            None => false,
        },
        last_seen_ts: clone_opt_string(&row.last_seen_ts),
        lifecycle: clone_opt_string(&row.lifecycle),
        idle: row.idle,
        session_memo: clone_opt_string(&row.session_memo),
        context_usage: usage,
    }
}

/// Strict (project, lane, agent id) order of two agents.
fn agent_key_lt_exec(a: &RemoteAgent, b: &RemoteAgent) -> (lt: bool)
    ensures
        lt == agent_key_lt(a@, b@),
{
    if str_lt(a.project.as_str(), b.project.as_str()) {
        return true;
    }
    if !string_eq(&a.project, &b.project) {
        return false;
    }
    if str_lt(a.lane.as_str(), b.lane.as_str()) {
        return true;
    }
    if !string_eq(&a.lane, &b.lane) {
        return false;
    }
    str_lt(a.agent_id.as_str(), b.agent_id.as_str())
}

/// Insert `agent` into `sorted` after every agent that does not sort after
/// it.
fn insert_agent(sorted: &mut Vec<RemoteAgent>, agent: RemoteAgent)
    ensures
        agents_view(final(sorted)@) == insert_sorted(agents_view(old(sorted)@), agent@),
{
    let ghost t = agents_view(sorted@);
    let mut j: usize = sorted.len();
    while j > 0 && agent_key_lt_exec(&agent, &sorted[j - 1])
        invariant
            j <= sorted.len(),
            t == agents_view(sorted@),
            forall|k: int| j <= k < t.len() ==> agent_key_lt(agent@, #[trigger] t[k]),
        decreases j,
    {
        j = j - 1;
    }
    proof {
        lemma_insert_at(t, agent@, j as int);
    }
    let ghost av = agent@;
    sorted.insert(j, agent);
    assert(agents_view(sorted@) =~= t.take(j as int).push(av) + t.skip(j as int));
}

/// Projected agents of a presence feed: stale rows are dropped unless
/// `include_recent` is set, and the rest are sorted by project, lane and
/// agent id (stably).
pub fn project_presence(rows: &Vec<PresenceRow>, include_recent: bool) -> (out: Vec<RemoteAgent>)
    ensures
        agents_view(out@) == spec_project_presence(rows@, include_recent),
{
    let mut out: Vec<RemoteAgent> = Vec::new();
    let mut i: usize = 0;
    while i < rows.len()
        invariant
            i <= rows.len(),
            agents_view(out@) == sort_agents(kept_projection(rows@.take(i as int), include_recent)),
        decreases rows.len() - i,
    {
        let row = &rows[i];
        assert(rows@.take(i + 1).drop_last() =~= rows@.take(i as int));
        assert(rows@.take(i + 1).last() == *row);
        let ghost prev = kept_projection(rows@.take(i as int), include_recent);
        if include_recent || row.is_live() {
            let agent = project_row(row);
            insert_agent(&mut out, agent);
            assert(kept_projection(rows@.take(i + 1), include_recent).drop_last() =~= prev);
        }
        i = i + 1;
    }
    assert(rows@.take(rows.len() as int) =~= rows@);
    out
}

} // verus!
