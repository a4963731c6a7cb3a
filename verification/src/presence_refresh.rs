//! Polling of the presence feed: when a refresh is due, and what a
//! finished refresh does to the rows the sidebar shows.
//!
//! Times are milliseconds on the application's monotonic clock. The fetch
//! itself runs elsewhere; this module only decides.
use vstd::prelude::*;
use crate::presence::{RemoteAgent, agents_view};
use crate::text::{digits_value_chars, lemma_digit_chars_grow, lemma_digit_chars_none_extends, opt_string_eq, string_eq};

verus! {

/// Default polling interval when none (or an unreadable one) is configured.
pub const DEFAULT_PRESENCE_POLL_MS: u64 = 15000;

/// `str::parse::<u64>`: an optional `+`, then one or more ASCII digits
/// whose value fits `u64`.
pub open spec fn spec_parse_u64(s: Seq<char>) -> Option<u64> {
    let body = if s.len() > 0 && s[0] == '+' { s.drop_first() } else { s };
    if body.len() == 0 {
        None
    } else {
        match digits_value_chars(body) {
            Some(v) => if v <= u64::MAX {
                Some(v as u64)
            } else {
                None
            },
            None => None,
        }
    }
}

/// The polling interval for a configured value (`HERM_PRESENCE_POLL_MS`).
pub open spec fn spec_refresh_interval_ms(raw: Option<Seq<char>>) -> u64 {
    match raw {
        Some(s) => match spec_parse_u64(s) {
            Some(v) => v,
            None => DEFAULT_PRESENCE_POLL_MS,
        },
        None => DEFAULT_PRESENCE_POLL_MS,
    }
}

/// Parse a decimal `u64` the way `str::parse::<u64>` does.
pub fn parse_u64(s: &str) -> (out: Option<u64>)
    ensures
        out == spec_parse_u64(s@),
{
    let chars = crate::text::chars_of(s);
    let mut start: usize = 0;
    if chars.len() > 0 && chars[0] == '+' {
        start = 1;
    }
    let ghost body = if s@.len() > 0 && s@[0] == '+' { s@.drop_first() } else { s@ };
    assert(body =~= chars@.subrange(start as int, chars@.len() as int));
    if start == chars.len() {
        return None;
    }
    let mut acc: u64 = 0;
    let mut i: usize = start;
    assert(chars@.subrange(start as int, start as int) =~= Seq::<char>::empty());
    while i < chars.len()
        invariant
            start <= i <= chars.len(),
            chars@ == s@,
            body == chars@.subrange(start as int, chars@.len() as int),
            body.len() > 0,
            body == (if s@.len() > 0 && s@[0] == '+' { s@.drop_first() } else { s@ }),
            digits_value_chars(chars@.subrange(start as int, i as int)) == Some(acc as int),
        decreases chars.len() - i,
    {
        let c = chars[i];
        let ghost prefix = chars@.subrange(start as int, i + 1);
        assert(prefix.drop_last() =~= chars@.subrange(start as int, i as int));
        let d: u64 = if c == '0' { 0 }
            else if c == '1' { 1 }
            else if c == '2' { 2 }
            else if c == '3' { 3 }
            else if c == '4' { 4 }
            else if c == '5' { 5 }
            else if c == '6' { 6 }
            else if c == '7' { 7 }
            else if c == '8' { 8 }
            else if c == '9' { 9 }
            else {
                proof {
                    lemma_digit_chars_none_extends(
                        chars@, start as int, i + 1, chars@.len() as int);
                }
                assert(chars@.subrange(start as int, chars@.len() as int) =~= body);
                return None;
            };
        assert(digits_value_chars(prefix) == Some(acc * 10 + d));
        if acc > (u64::MAX - d) / 10 {
            proof {
                let q = (u64::MAX - d) / 10;
                assert(acc * 10 + d > u64::MAX) by (nonlinear_arith)
                    requires acc > q, q == (u64::MAX - d) / 10, d <= 9;
                lemma_digit_chars_grow(
                    chars@, start as int, i + 1, chars@.len() as int, acc * 10 + d);
            }
            assert(chars@.subrange(start as int, chars@.len() as int) =~= body);
            return None;
        }
        assert(acc * 10 + d <= u64::MAX) by (nonlinear_arith)
            requires acc <= (u64::MAX - d) / 10, d <= 9;
        acc = acc * 10 + d;
        i = i + 1;
    }
    assert(chars@.subrange(start as int, chars@.len() as int) =~= body);
    Some(acc)
}

/// The polling interval in milliseconds for the configured value.
pub fn refresh_interval_ms(raw: Option<&str>) -> (ms: u64)
    ensures
        ms == spec_refresh_interval_ms(
            match raw {
                Some(s) => Some(s@),
                None => None,
            },
        ),
{
    match raw {
        Some(s) => match parse_u64(s) {
            Some(v) => v,
            None => DEFAULT_PRESENCE_POLL_MS,
        },
        None => DEFAULT_PRESENCE_POLL_MS,
    }
}

/// The application state that presence polling reads and changes.
pub struct App {
    /// A fetch has been started and its result has not arrived yet.
    pub presence_in_flight: bool,
    /// When the last result arrived.
    pub last_presence_refresh_ms: u64,
    /// The rows the sidebar shows.
    pub remote_agents: Vec<RemoteAgent>,
    /// A redraw of the screen has been requested and not yet served.
    pub render_dirty: bool,
}

/// When the next refresh is due (the interval after the last refresh, at
/// most the clock's largest reading), or `None` while one is in flight.
pub open spec fn spec_refresh_deadline(in_flight: bool, last: u64, interval: u64) -> Option<int> {
    if in_flight {
        None
    } else if last + interval > u64::MAX {
        Some(u64::MAX as int)
    } else {
        Some(last + interval)
    }
}

impl App {
    /// A state with no fetch in flight whose last refresh was at `now`.
    pub fn new(now: u64, remote_agents: Vec<RemoteAgent>) -> (s: Self)
        ensures
            !s.presence_in_flight,
            s.last_presence_refresh_ms == now,
            s.remote_agents == remote_agents,
            !s.render_dirty,
    {
        App { presence_in_flight: false, last_presence_refresh_ms: now, remote_agents, render_dirty: false }
    }

    /// When the next refresh is due, or `None` while one is in flight.
    pub fn presence_refresh_deadline(&self, interval_ms: u64) -> (deadline: Option<u64>)
        ensures
            match deadline {
                Some(d) => spec_refresh_deadline(self.presence_in_flight, self.last_presence_refresh_ms, interval_ms)
                    == Some(d as int),
                None => spec_refresh_deadline(self.presence_in_flight, self.last_presence_refresh_ms, interval_ms)
                    is None,
            },
    {
        if self.presence_in_flight {
            None
        } else {
            Some(self.last_presence_refresh_ms.saturating_add(interval_ms))
        }
    }

    /// Start a refresh when one is due at `now`: returns `true` when the
    /// caller must start a fetch, which is then in flight.
    pub fn start_presence_refresh_if_due(&mut self, now: u64, interval_ms: u64) -> (start: bool)
        ensures
            start == (spec_refresh_deadline(
                old(self).presence_in_flight,
                old(self).last_presence_refresh_ms,
                interval_ms,
            ) matches Some(d) && now >= d),
            final(self).presence_in_flight == (old(self).presence_in_flight || start),
            final(self).last_presence_refresh_ms == old(self).last_presence_refresh_ms,
            final(self).remote_agents == old(self).remote_agents,
            final(self).render_dirty == old(self).render_dirty,
    {
        let deadline = match self.presence_refresh_deadline(interval_ms) {
            Some(d) => d,
            None => return false,
        };
        if now < deadline {
            return false;
        }
        self.presence_in_flight = true;
        true
    }

    /// Take the result of a fetch that finished at `now`. The rows are
    /// replaced only by a successful result that differs from them; an
    /// error keeps the last known rows. Returns whether the rows changed;
    /// a change also requests a redraw.
    pub fn handle_presence_refreshed(
        &mut self,
        result: Result<Vec<RemoteAgent>, String>,
        now: u64,
    ) -> (changed: bool)
        ensures
            !final(self).presence_in_flight,
            final(self).last_presence_refresh_ms == now,
            changed == (result matches Ok(agents) && agents_view(agents@) != agents_view(
                old(self).remote_agents@,
            )),
            agents_view(final(self).remote_agents@) == if changed {
                agents_view(result->Ok_0@)
            } else {
                agents_view(old(self).remote_agents@)
            },
            final(self).render_dirty == (old(self).render_dirty || changed),
    {
        self.presence_in_flight = false;
        self.last_presence_refresh_ms = now;
        let agents = match result {
            Ok(agents) => agents,
            Err(_) => return false,
        };
        if agents_eq(&agents, &self.remote_agents) {
            return false;
        }
        self.remote_agents = agents;
        self.render_dirty = true;
        true
    }
}

/// Field-by-field equality of two remote agents.
pub fn agent_eq(a: &RemoteAgent, b: &RemoteAgent) -> (eq: bool)
    ensures
        eq == (a@ == b@),
{
    let r = string_eq(&a.agent_id, &b.agent_id) && opt_string_eq(&a.host, &b.host) && string_eq(
        &a.project,
        &b.project,
    ) && string_eq(&a.lane, &b.lane) && string_eq(&a.status, &b.status) && string_eq(
        &a.user,
        &b.user,
    ) && opt_string_eq(&a.cwd, &b.cwd) && a.process_alive == b.process_alive && a.stream_alive
        == b.stream_alive && opt_string_eq(&a.last_seen_ts, &b.last_seen_ts) && opt_string_eq(
        &a.lifecycle,
        &b.lifecycle,
    ) && a.idle == b.idle && opt_string_eq(&a.session_memo, &b.session_memo) && opt_string_eq(
        &a.context_usage,
        &b.context_usage,
    );
    r
}

/// Element-wise equality of two lists of remote agents.
pub fn agents_eq(a: &Vec<RemoteAgent>, b: &Vec<RemoteAgent>) -> (eq: bool)
    ensures
        eq == (agents_view(a@) == agents_view(b@)),
{
    if a.len() != b.len() {
        assert(agents_view(a@).len() != agents_view(b@).len());
        return false;
    }
    let mut i: usize = 0;
    while i < a.len()
        invariant
            a.len() == b.len(),
            i <= a.len(),
            forall|k: int| 0 <= k < i ==> a@[k]@ == b@[k]@,
        decreases a.len() - i,
    {
        if !agent_eq(&a[i], &b[i]) {
            assert(agents_view(a@)[i as int] != agents_view(b@)[i as int]);
            return false;
        }
        i = i + 1;
    }
    assert(agents_view(a@) =~= agents_view(b@));
    true
}

} // verus!
