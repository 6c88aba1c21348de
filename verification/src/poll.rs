//! What the widget shows for each tool, and the decisions around asking the
//! online services: what a reply or an error does to a row, how long to back
//! off, and which tool is due for its next check.
use vstd::prelude::*;
use crate::usage::{Tool, Row, RowView, empty_row, status_row, has_limits, message_row};
use crate::settings::{Settings, clamp, online_tools};

verus! {

/// The rows of all tools.
#[derive(Debug, Clone)]
pub struct Snapshot {
    pub claude: Row,
    pub codex: Row,
    pub gemini: Row,
    pub qwen: Row,
    pub opencode: Row,
    pub copilot: Row,
    pub cursor: Row,
}

impl Snapshot {
    /// The row of tool `t`.
    pub open spec fn row_of(self, t: Tool) -> Row {
        match t {
            Tool::Claude => self.claude,
            Tool::Codex => self.codex,
            Tool::Gemini => self.gemini,
            Tool::Qwen => self.qwen,
            Tool::Opencode => self.opencode,
            Tool::Copilot => self.copilot,
            Tool::Cursor => self.cursor,
        }
    }

    /// Whether `self` and `other` hold the same rows but for tool `t`.
    pub open spec fn same_but(self, other: Snapshot, t: Tool) -> bool {
        forall|u: Tool| u != t ==> #[trigger] self.row_of(u) == other.row_of(u)
    }

    /// The empty snapshot: every row empty.
    pub fn new() -> (r: Snapshot)
        ensures
            forall|t: Tool| #[trigger] r.row_of(t)@ == empty_row(),
    {
        Snapshot {
            claude: Row::default(),
            codex: Row::default(),
            gemini: Row::default(),
            qwen: Row::default(),
            opencode: Row::default(),
            copilot: Row::default(),
            cursor: Row::default(),
        }
    }

    /// The row of tool `t`, to change.
    pub fn row_mut(&mut self, t: Tool) -> (r: &mut Row)
        ensures
            *r == old(self).row_of(t),
            final(self).row_of(t) == *final(r),
            final(self).same_but(*old(self), t),
    {
        match t {
            Tool::Claude => &mut self.claude,
            Tool::Codex => &mut self.codex,
            Tool::Gemini => &mut self.gemini,
            Tool::Qwen => &mut self.qwen,
            Tool::Opencode => &mut self.opencode,
            Tool::Copilot => &mut self.copilot,
            Tool::Cursor => &mut self.cursor,
        }
    }

    /// Replaces the row of tool `t`.
    pub fn set_row(&mut self, t: Tool, row: Row)
        ensures
            final(self).row_of(t) == row,
            final(self).same_but(*old(self), t),
    {
        match t {
            Tool::Claude => self.claude = row,
            Tool::Codex => self.codex = row,
            Tool::Gemini => self.gemini = row,
            Tool::Qwen => self.qwen = row,
            Tool::Opencode => self.opencode = row,
            Tool::Copilot => self.copilot = row,
            Tool::Cursor => self.cursor = row,
        }
    }
}

/// Why an online check gave no usage.
#[derive(Debug, Clone, Copy)]
pub enum NetErr {
    /// No login was found.
    NotSignedIn,
    /// The login was refused or has expired.
    Expired,
    /// Too many requests; the service may say how many seconds to wait.
    RateLimited(Option<u64>),
    /// The service could not be reached or answered something unusable.
    Unavailable(&'static str),
}

/// A check's outcome with the row seen by its view.
pub open spec fn outcome_view(r: Result<Row, NetErr>) -> Result<RowView, NetErr> {
    match r {
        Ok(row) => Ok(row@),
        Err(e) => Err(e),
    }
}

/// The row after a check whose outcome is `r`: the new usage, shown as
/// connected; the empty row without a login; a message for an expired login;
/// and for a rate limit or an outage a message, unless the row already shows
/// usage, which then stays.
pub open spec fn row_after(old: RowView, r: Result<RowView, NetErr>, expired: Seq<char>) -> RowView {
    match r {
        Ok(new) => RowView { connected: true, ..new },
        Err(NetErr::NotSignedIn) => empty_row(),
        Err(NetErr::Expired) => status_row(true, expired),
        Err(NetErr::RateLimited(_)) => if has_limits(old) {
            old
        } else {
            status_row(true, "rate limited, retrying later"@)
        },
        Err(NetErr::Unavailable(msg)) => if has_limits(old) {
            old
        } else {
            status_row(true, msg@)
        },
    }
}

/// An expired login always shows its message on a connected row with no
/// window, whatever the row showed before.
pub proof fn lemma_expired_shows_message(old: RowView, expired: Seq<char>)
    ensures
        row_after(old, Err(NetErr::Expired), expired).connected,
        row_after(old, Err(NetErr::Expired), expired).status == Some(expired),
        row_after(old, Err(NetErr::Expired), expired).five_hour is None,
        row_after(old, Err(NetErr::Expired), expired).weekly is None,
        row_after(old, Err(NetErr::Expired), expired).monthly is None,
{
}

/// A reply with usage connects the row and shows that usage; a missing login
/// empties the row; a rate limit or an outage keeps a row that shows usage
/// and otherwise shows a message on a connected row.
pub proof fn lemma_outcomes_on_rows(old: RowView, new: RowView, expired: Seq<char>, msg: &'static str, retry: Option<u64>)
    ensures
        ({
            let r = row_after(old, Ok(new), expired);
            r.connected && r.five_hour == new.five_hour && r.weekly == new.weekly && r.monthly
                == new.monthly && r.status == new.status && r.tokens_5h == new.tokens_5h
                && r.tokens_24h == new.tokens_24h && r.cost_5h == new.cost_5h && r.cost_24h
                == new.cost_24h
        }),
        ({
            let r = row_after(old, Err(NetErr::NotSignedIn), expired);
            !r.connected && r.five_hour is None && r.weekly is None && r.monthly is None && r.status is None
                && r.tokens_5h is None && r.tokens_24h is None
        }),
        (old.five_hour is Some || old.weekly is Some || old.monthly is Some) ==> row_after(
            old,
            Err(NetErr::RateLimited(retry)),
            expired,
        ) == old && row_after(old, Err(NetErr::Unavailable(msg)), expired) == old,
        !(old.five_hour is Some || old.weekly is Some || old.monthly is Some) ==> ({
            let r = row_after(old, Err(NetErr::RateLimited(retry)), expired);
            let u = row_after(old, Err(NetErr::Unavailable(msg)), expired);
            r.connected && r.status == Some("rate limited, retrying later"@) && r.five_hour is None
                && u.connected && u.status == Some(msg@) && u.five_hour is None
        }),
{
}

/// The back-off after a check: none after usage came back; after a rate limit
/// the wait asked for, or else at least twice the last one and 5 minutes,
/// never above an hour; after any other error the back-off stays.
pub proof fn lemma_backoff_outcomes(b: u64, new: RowView, retry: u64, e: NetErr)
    ensures
        backoff_after(b, Ok(new)) == 0,
        backoff_after(b, Err(NetErr::RateLimited(Some(retry)))) == (if retry < 3600 {
            retry as int
        } else {
            3600
        }),
        300 <= backoff_after(b, Err(NetErr::RateLimited(None))) <= 3600,
        backoff_after(b, Err(NetErr::RateLimited(None))) >= 2 * b || backoff_after(
            b,
            Err(NetErr::RateLimited(None)),
        ) == 3600,
        !(e is RateLimited) ==> backoff_after(b, Err(e)) == b,
{
}

/// The longest wait between two checks of a rate-limited service, in seconds.
pub open spec fn max_backoff() -> int {
    3600
}

/// The back-off (in seconds) after a check: none after a success; after a
/// rate limit, the wait the service asked for, or else twice the last one
/// and at least 5 minutes, in both cases at most an hour; otherwise unchanged.
pub open spec fn backoff_after(backoff: u64, r: Result<RowView, NetErr>) -> int {
    match r {
        Ok(_) => 0,
        Err(NetErr::RateLimited(retry)) => {
            let wait = match retry {
                Some(s) => s as int,
                None => if 2 * backoff > 300 {
                    2 * backoff
                } else {
                    300
                },
            };
            if wait < 3600 {
                wait
            } else {
                3600
            }
        },
        _ => backoff as int,
    }
}

/// Applies the outcome of a check of `tool` to its row and its back-off;
/// `expired` is the message for an expired login of that tool. Nothing
/// changes when the tool was turned off or its folder changed while the check
/// ran (`wanted` false).
pub fn apply_poll_result(
    snap: &mut Snapshot,
    backoff: &mut u64,
    tool: Tool,
    wanted: bool,
    result: Result<Row, NetErr>,
    expired: &str,
)
    requires
        result matches Err(NetErr::RateLimited(_)) ==> 2 * *old(backoff) <= u64::MAX,
    ensures
        wanted ==> final(snap).row_of(tool)@ == row_after(
            old(snap).row_of(tool)@,
            outcome_view(result),
            expired@,
        ),
        wanted ==> final(snap).same_but(*old(snap), tool),
        wanted ==> *final(backoff) == backoff_after(*old(backoff), outcome_view(result)),
        !wanted ==> *final(snap) == *old(snap) && *final(backoff) == *old(backoff),
{
    if !wanted {
        return;
    }
    let row = snap.row_mut(tool);
    let has_data = row.five_hour.is_some() || row.weekly.is_some() || row.monthly.is_some();
    match result {
        Ok(mut r) => {
            r.connected = true;
            *backoff = 0;
            *row = r;
        },
        Err(NetErr::NotSignedIn) => {
            *row = Row::default();
        },
        Err(NetErr::Expired) => {
            *row = message_row(true, expired);
        },
        Err(NetErr::RateLimited(retry)) => {
            let doubled = *backoff * 2;
            let fallback = if doubled > 300 {
                doubled
            } else {
                300
            };
            let wait = match retry {
                Some(s) => s,
                None => fallback,
            };
            *backoff = if wait < 3600 {
                wait
            } else {
                3600
            };
            if !has_data {
                *row = message_row(true, "rate limited, retrying later");
            }
        },
        Err(NetErr::Unavailable(msg)) => {
            if !has_data {
                *row = message_row(true, msg);
            }
        },
    }
}

/// The back-off never exceeds an hour once it is within an hour.
pub proof fn lemma_backoff_bounded(backoff: u64, r: Result<RowView, NetErr>)
    requires
        backoff <= max_backoff(),
    ensures
        0 <= backoff_after(backoff, r) <= max_backoff(),
{
}

/// Without a requested wait, repeated rate limits back off 5, 10, 20, 40
/// minutes, then an hour: the wait never shrinks, is at least 5 minutes and
/// at most an hour.
pub proof fn lemma_backoff_grows(backoff: u64)
    requires
        backoff <= max_backoff(),
    ensures
        backoff_after(backoff, Err(NetErr::RateLimited(None))) >= backoff,
        300 <= backoff_after(backoff, Err(NetErr::RateLimited(None))) <= max_backoff(),
        backoff_after(0, Err(NetErr::RateLimited(None))) == 300,
        backoff_after(300, Err(NetErr::RateLimited(None))) == 600,
        backoff_after(2400, Err(NetErr::RateLimited(None))) == 3600,
{
}

/// A row that shows usage keeps showing it through rate limits and outages.
pub proof fn lemma_usage_survives_outages(old: RowView, r: Result<RowView, NetErr>, expired: Seq<char>)
    requires
        has_limits(old),
        r matches Err(e) && (e is RateLimited || e is Unavailable),
    ensures
        row_after(old, r, expired) == old,
{
}

/// After a successful check the row is connected and shows exactly the new
/// usage, and the back-off is cleared.
pub proof fn lemma_success_connects(old: RowView, new: RowView, backoff: u64, expired: Seq<char>)
    ensures
        row_after(old, Ok(new), expired) == (RowView { connected: true, ..new }),
        backoff_after(backoff, Ok(new)) == 0,
{
}

/// When a tool was last checked and how long it is backing off.
#[derive(Debug, Clone, Copy)]
pub struct PollClock {
    /// Seconds since the last check; `None` if it was never checked.
    pub elapsed: Option<u64>,
    /// Seconds to wait at least between checks.
    pub backoff: u64,
}

/// The regular period between two checks, in seconds: the refresh setting,
/// held to 1..=60 minutes.
pub open spec fn refresh_period(s: Settings) -> int {
    clamp(s.claude_refresh_min as int, 1, 60) * 60
}

/// The online limits are checked every 1 to 60 minutes, whatever the setting holds.
pub proof fn lemma_refresh_period_bounds(s: Settings)
    ensures
        60 <= refresh_period(s) <= 3600,
{
}

/// Whether tool `t` may be checked over the network: it is turned on, and so
/// is the Anthropic tool, whose limit check is the one request that Quotis
/// promises; with it turned off no request is made at all.
pub open spec fn may_check(t: Tool, s: Settings) -> bool {
    s.provider(t).enabled && s.claude.enabled
}

/// Whether tool `t` may be checked over the network.
pub fn checks_allowed(s: &Settings, t: Tool) -> (r: bool)
    ensures
        r == may_check(t, *s),
{
    s.provider_of(t).enabled && s.claude.enabled
}

/// Whether tool `t` is due for a check: it may be checked, and it was never
/// checked, or the regular period and its back-off have passed, or, for
/// the Anthropic tool after its logs changed, two minutes and its back-off have passed.
pub open spec fn is_due(t: Tool, s: Settings, c: PollClock, claude_dirty: bool) -> bool {
    may_check(t, s) && match c.elapsed {
        None => true,
        Some(secs) => {
            let base = refresh_period(s);
            (secs >= base && secs >= c.backoff) || (t == Tool::Claude && claude_dirty && secs
                >= 120 && secs >= c.backoff)
        },
    }
}

/// No tool is due before its back-off has passed since its last check, the
/// Anthropic tool with changed logs included.
pub proof fn lemma_back_off_is_kept(t: Tool, s: Settings, c: PollClock, claude_dirty: bool)
    requires
        c.elapsed matches Some(secs) && secs < c.backoff,
    ensures
        !is_due(t, s, c, claude_dirty),
{
}

/// A tool that may be checked becomes due once its back-off and the regular
/// period have passed, and, for the Anthropic tool with changed logs, once its
/// back-off and two minutes have passed.
pub proof fn lemma_due_after_waiting(t: Tool, s: Settings, c: PollClock, claude_dirty: bool)
    requires
        may_check(t, s),
        c.elapsed matches Some(secs) && secs >= c.backoff && (secs >= refresh_period(s) || (t
            == Tool::Claude && claude_dirty && secs >= 120)),
    ensures
        is_due(t, s, c, claude_dirty),
{
}

/// Changed logs hasten only the Anthropic tool's check: for every other tool
/// they change nothing.
pub proof fn lemma_dirty_logs_only_hasten_claude(t: Tool, s: Settings, c: PollClock)
    requires
        t != Tool::Claude,
    ensures
        is_due(t, s, c, true) == is_due(t, s, c, false),
{
}

/// Before the regular period has passed, a checked tool is due only if it is
/// the Anthropic tool with changed logs, at least two minutes after its check.
pub proof fn lemma_not_due_early(t: Tool, s: Settings, c: PollClock, claude_dirty: bool)
    requires
        c.elapsed matches Some(secs) && secs < refresh_period(s) && (secs < 120 || !(t == Tool::Claude
            && claude_dirty)),
    ensures
        !is_due(t, s, c, claude_dirty),
{
}

/// Whether tool `t` is due for a check; never while the Anthropic tool is
/// turned off.
pub fn due(t: Tool, s: &Settings, c: PollClock, claude_dirty: bool) -> (r: bool)
    ensures
        r == is_due(t, *s, c, claude_dirty),
        r ==> s.claude.enabled,
{
    if !checks_allowed(s, t) {
        return false;
    }
    match c.elapsed {
        None => true,
        Some(secs) => {
            let minutes: u64 = if s.claude_refresh_min < 1 {
                1
            } else if s.claude_refresh_min > 60 {
                60
            } else {
                s.claude_refresh_min
            };
            let base = minutes * 60;
            (secs >= base && secs >= c.backoff) || (t == Tool::Claude && claude_dirty && secs
                >= 120 && secs >= c.backoff)
        },
    }
}

/// The online tools that are due, in polling order.
pub fn due_tools(
    s: &Settings,
    claude: PollClock,
    copilot: PollClock,
    cursor: PollClock,
    claude_dirty: bool,
) -> (r: Vec<Tool>)
    ensures
        r@ == seq![
            (Tool::Claude, claude),
            (Tool::Copilot, copilot),
            (Tool::Cursor, cursor),
        ].filter(|e: (Tool, PollClock)| is_due(e.0, *s, e.1, claude_dirty)).map_values(
            |e: (Tool, PollClock)| e.0,
        ),
        !s.claude.enabled ==> r@.len() == 0,
{
    let mut out: Vec<Tool> = Vec::new();
    let a = due(Tool::Claude, s, claude, claude_dirty);
    let b = due(Tool::Copilot, s, copilot, claude_dirty);
    let c = due(Tool::Cursor, s, cursor, claude_dirty);
    if a {
        out.push(Tool::Claude);
    }
    if b {
        out.push(Tool::Copilot);
    }
    if c {
        out.push(Tool::Cursor);
    }
    proof {
        let e = seq![(Tool::Claude, claude), (Tool::Copilot, copilot), (Tool::Cursor, cursor)];
        let f = |x: (Tool, PollClock)| is_due(x.0, *s, x.1, claude_dirty);
        reveal_with_fuel(Seq::filter, 4);
        assert(e.take(1) =~= seq![(Tool::Claude, claude)]);
        assert(e.drop_last() =~= seq![(Tool::Claude, claude), (Tool::Copilot, copilot)]);
        assert(e.drop_last().drop_last() =~= seq![(Tool::Claude, claude)]);
        assert(e.drop_last().drop_last().drop_last() =~= Seq::<(Tool, PollClock)>::empty());
        assert(out@ =~= e.filter(f).map_values(|x: (Tool, PollClock)| x.0));
    }
    out
}

/// No tool is checked more often than once a minute.
pub proof fn lemma_at_most_once_a_minute(t: Tool, s: Settings, c: PollClock, claude_dirty: bool)
    requires
        c.elapsed matches Some(secs) && secs < 60,
    ensures
        !is_due(t, s, c, claude_dirty),
{
}

/// A tool that is turned off is never checked.
pub proof fn lemma_disabled_never_due(t: Tool, s: Settings, c: PollClock, claude_dirty: bool)
    requires
        !s.provider(t).enabled,
    ensures
        !is_due(t, s, c, claude_dirty),
{
}

/// With the Anthropic tool turned off, no tool is ever due: no request is made.
pub proof fn lemma_no_request_without_claude(t: Tool, s: Settings, c: PollClock, claude_dirty: bool)
    requires
        !s.claude.enabled,
    ensures
        !is_due(t, s, c, claude_dirty),
{
}

/// A tool that may be checked and was never checked, or whose last check is
/// an hour old while it backs off an hour at most, is due.
pub proof fn lemma_due_within_an_hour(t: Tool, s: Settings, c: PollClock, claude_dirty: bool)
    requires
        may_check(t, s),
        c.elapsed matches Some(secs) ==> secs >= 3600 && c.backoff <= max_backoff(),
    ensures
        is_due(t, s, c, claude_dirty),
{
}

/// Whether the row of online tool `t` is emptied when the settings are
/// applied: it is to be checked again at once, or it may no longer be checked
/// (turned off, or the Anthropic tool turned off).
pub open spec fn reset_on_apply(t: Tool, s: Settings, poll_now: Seq<Tool>) -> bool {
    online_tools().contains(t) && (poll_now.contains(t) || !may_check(t, s))
}

fn listed(tools: &Vec<Tool>, t: Tool) -> (r: bool)
    ensures
        r == tools@.contains(t),
{
    let mut j: usize = 0;
    while j < tools.len()
        invariant
            j <= tools.len(),
            !tools@.take(j as int).contains(t),
        decreases tools.len() - j,
    {
        if tools[j] == t {
            assert(tools@[j as int] == t);
            return true;
        }
        assert(tools@.take(j + 1) =~= tools@.take(j as int).push(tools@[j as int]));
        proof {
            vstd::seq_lib::lemma_seq_contains_after_push(tools@.take(j as int), tools@[j as int], t);
        }
        j = j + 1;
    }
    assert(tools@.take(tools.len() as int) =~= tools@);
    false
}

fn reset_if_wanted(snap: &mut Snapshot, s: &Settings, poll_now: &Vec<Tool>, t: Tool)
    requires
        online_tools().contains(t),
    ensures
        reset_on_apply(t, *s, poll_now@) ==> final(snap).row_of(t)@ == empty_row(),
        !reset_on_apply(t, *s, poll_now@) ==> final(snap).row_of(t) == old(snap).row_of(t),
        final(snap).same_but(*old(snap), t),
{
    if listed(poll_now, t) || !checks_allowed(s, t) {
        snap.set_row(t, Row::default());
    }
}

/// Empties the rows of the online tools that are checked again at once or
/// turned off; leaves every other row as it was.
pub fn reset_online_rows(snap: &mut Snapshot, s: &Settings, poll_now: &Vec<Tool>)
    ensures
        forall|t: Tool| #[trigger] reset_on_apply(t, *s, poll_now@) ==> final(snap).row_of(t)@ == empty_row(),
        forall|t: Tool| !#[trigger] reset_on_apply(t, *s, poll_now@) ==> final(snap).row_of(t) == old(snap).row_of(t),
{
    assert(online_tools()[0] == Tool::Claude && online_tools()[1] == Tool::Copilot
        && online_tools()[2] == Tool::Cursor);
    let ghost s0 = *snap;
    reset_if_wanted(snap, s, poll_now, Tool::Claude);
    let ghost s1 = *snap;
    reset_if_wanted(snap, s, poll_now, Tool::Copilot);
    let ghost s2 = *snap;
    reset_if_wanted(snap, s, poll_now, Tool::Cursor);
    assert forall|t: Tool| online_tools().contains(t) implies t == Tool::Claude || t == Tool::Copilot || t == Tool::Cursor by {
        let k = choose|k: int| 0 <= k < online_tools().len() && online_tools()[k] == t;
    }
    assert forall|t: Tool| #[trigger] reset_on_apply(t, *s, poll_now@) implies snap.row_of(t)@ == empty_row() by {
        assert(s2.row_of(Tool::Claude) == s1.row_of(Tool::Claude));
        assert(snap.row_of(Tool::Claude) == s2.row_of(Tool::Claude));
        assert(snap.row_of(Tool::Copilot) == s2.row_of(Tool::Copilot));
    }
    assert forall|t: Tool| !#[trigger] reset_on_apply(t, *s, poll_now@) implies snap.row_of(t) == s0.row_of(t) by {
        assert(snap.row_of(t) == s2.row_of(t) || t == Tool::Cursor);
        assert(s2.row_of(t) == s1.row_of(t) || t == Tool::Copilot);
        assert(s1.row_of(t) == s0.row_of(t) || t == Tool::Claude);
    }
}

/// The number of tokens of the entries less than `window` seconds older than `now`.
pub open spec fn recent_total(entries: Seq<(i64, u64)>, now: int, window: int) -> int
    decreases entries.len(),
{
    if entries.len() == 0 {
        0
    } else {
        recent_total(entries.drop_last(), now, window) + if now - entries.last().0 < window {
            entries.last().1 as int
        } else {
            0
        }
    }
}

/// Whether `now - ts` fits in an `i64` for every entry.
pub open spec fn ages_fit(entries: Seq<(i64, u64)>, now: int) -> bool {
    forall|k: int| 0 <= k < entries.len() ==> i64::MIN <= now - #[trigger] entries[k].0 <= i64::MAX
}

/// The tokens used in the last `window` seconds; `None` if the sum does not fit in a `u64`.
pub fn recent_tokens(entries: &Vec<(i64, u64)>, now: i64, window: i64) -> (r: Option<u64>)
    requires
        ages_fit(entries@, now as int),
    ensures
        match r {
            Some(n) => n == recent_total(entries@, now as int, window as int),
            None => recent_total(entries@, now as int, window as int) > u64::MAX,
        },
{
    let mut total: u64 = 0;
    let mut i: usize = 0;
    assert(entries@.take(0) =~= Seq::<(i64, u64)>::empty());
    while i < entries.len()
        invariant
            i <= entries.len(),
            ages_fit(entries@, now as int),
            total == recent_total(entries@.take(i as int), now as int, window as int),
        decreases entries.len() - i,
    {
        let (ts, n) = entries[i];
        proof {
            let t = entries@.take(i + 1);
            assert(t.drop_last() =~= entries@.take(i as int));
            assert(t.last() == entries@[i as int]);
            assert(i64::MIN <= now - entries@[i as int].0 <= i64::MAX);
        }
        if now - ts < window {
            match total.checked_add(n) {
                Some(x) => total = x,
                None => {
                    proof {
                        lemma_recent_total_grows(entries@, now as int, window as int, i + 1);
                    }
                    return None;
                },
            }
        }
        i = i + 1;
    }
    assert(entries@.take(entries.len() as int) =~= entries@);
    Some(total)
}

proof fn lemma_recent_total_grows(entries: Seq<(i64, u64)>, now: int, window: int, i: int)
    requires
        0 <= i <= entries.len(),
    ensures
        recent_total(entries.take(i), now, window) <= recent_total(entries, now, window),
    decreases entries.len() - i,
{
    if i < entries.len() {
        lemma_recent_total_grows(entries, now, window, i + 1);
        assert(entries.take(i + 1).drop_last() =~= entries.take(i));
    } else {
        assert(entries.take(i) =~= entries);
    }
}

/// A longer window never counts fewer tokens: the last 5 hours hold at most
/// the tokens of the last 24 hours.
pub proof fn lemma_window_monotone(entries: Seq<(i64, u64)>, now: int, w1: int, w2: int)
    requires
        w1 <= w2,
    ensures
        recent_total(entries, now, w1) <= recent_total(entries, now, w2),
    decreases entries.len(),
{
    if entries.len() > 0 {
        lemma_window_monotone(entries.drop_last(), now, w1, w2);
    }
}

/// Sets the 5-hour and 24-hour token counts of a connected row from its log
/// entries; a row that is not connected stays as it is. `false`, with the row
/// unchanged, if a count does not fit in a `u64`.
pub fn count_tokens(row: &mut Row, entries: &Vec<(i64, u64)>, now: i64) -> (ok: bool)
    requires
        old(row).connected ==> ages_fit(entries@, now as int),
    ensures
        ok == (!old(row).connected || recent_total(entries@, now as int, 86400) <= u64::MAX),
        ok && old(row).connected ==> final(row).tokens_5h->0 <= final(row).tokens_24h->0,
        ok && old(row).connected ==> final(row)@ == (RowView {
            tokens_5h: Some(recent_total(entries@, now as int, 18000) as u64),
            tokens_24h: Some(recent_total(entries@, now as int, 86400) as u64),
            ..old(row)@
        }),
        !(ok && old(row).connected) ==> *final(row) == *old(row),
{
    if !row.connected {
        return true;
    }
    proof {
        lemma_window_monotone(entries@, now as int, 18000, 86400);
    }
    let day = recent_tokens(entries, now, 86400);
    let five = recent_tokens(entries, now, 18000);
    match (five, day) {
        (Some(f), Some(d)) => {
            row.tokens_5h = Some(f);
            row.tokens_24h = Some(d);
            true
        },
        _ => false,
    }
}

/// The message that the row of tool `t` shows when its login has expired;
/// `name` is the name of the first online tool's product.
pub open spec fn expired_text(t: Tool, name: Seq<char>) -> Seq<char> {
    match t {
        Tool::Claude => "login expired, open "@ + name + " Code"@,
        Tool::Copilot => "login expired, sign in to Copilot again"@,
        _ => "login expired, open Cursor"@,
    }
}

/// The message that the row of tool `t` shows when its login has expired.
pub fn expired_message(t: Tool, name: &str) -> (m: String)
    ensures
        m@ == expired_text(t, name@),
{
    match t {
        Tool::Claude => {
            let mut m = String::from_str("login expired, open ");
            m.append(name);
            m.append(" Code");
            m
        },
        Tool::Copilot => String::from_str("login expired, sign in to Copilot again"),
        _ => String::from_str("login expired, open Cursor"),
    }
}

/// Whether every tool that is turned off shows an empty row.
pub open spec fn off_rows_empty(snap: Snapshot, s: Settings) -> bool {
    forall|t: Tool| !#[trigger] s.provider(t).enabled ==> snap.row_of(t)@ == empty_row()
}

/// Writes back the outcome of a check of `tool`, with `s` the settings at the
/// time of writing: the outcome counts only if the tool may still be checked
/// (it and the Anthropic tool turned on) and its folders are unchanged
/// (`same_dirs`); otherwise it is dropped. A check of the Anthropic tool, kept
/// or dropped, answers the change of its logs (`claude_dirty` is cleared).
/// Turned-off tools keep showing nothing.
pub fn record_poll(
    snap: &mut Snapshot,
    backoff: &mut u64,
    claude_dirty: &mut bool,
    s: &Settings,
    tool: Tool,
    same_dirs: bool,
    result: Result<Row, NetErr>,
    expired: &str,
) -> (wanted: bool)
    requires
        result matches Err(NetErr::RateLimited(_)) ==> 2 * *old(backoff) <= u64::MAX,
    ensures
        wanted == (may_check(tool, *s) && same_dirs),
        wanted ==> final(snap).row_of(tool)@ == row_after(
            old(snap).row_of(tool)@,
            outcome_view(result),
            expired@,
        ),
        wanted ==> final(snap).same_but(*old(snap), tool),
        wanted ==> *final(backoff) == backoff_after(*old(backoff), outcome_view(result)),
        !wanted ==> *final(snap) == *old(snap) && *final(backoff) == *old(backoff),
        off_rows_empty(*old(snap), *s) ==> off_rows_empty(*final(snap), *s),
        *final(claude_dirty) == (tool != Tool::Claude && *old(claude_dirty)),
{
    if tool == Tool::Claude {
        *claude_dirty = false;
    }
    let wanted = checks_allowed(s, tool) && same_dirs;
    apply_poll_result(snap, backoff, tool, wanted, result, expired);
    proof {
        if off_rows_empty(*old(snap), *s) {
            assert forall|t: Tool| !#[trigger] s.provider(t).enabled implies snap.row_of(t)@
                == empty_row() by {
                if wanted {
                    assert(t != tool);
                }
            }
        }
    }
    wanted
}

/// Which local tools were found on disk: the Codex session logs, the opencode
/// database, and the Gemini and Qwen chat logs.
#[derive(Debug, Clone, Copy, PartialEq, Eq, Structural)]
pub struct LocalFound {
    pub codex_logs: bool,
    pub opencode_db: bool,
    pub gemini_logs: bool,
    pub qwen_logs: bool,
}

/// Sets the rows of the local tools when the settings are applied: each is
/// shown only if it is turned on and found. Gemini and Qwen rows start over,
/// connected if shown; Codex and opencode rows are emptied unless shown (they
/// are then read anew). Gives which local tools are shown.
pub fn reset_local_rows(snap: &mut Snapshot, s: &Settings, found: LocalFound) -> (on: LocalFound)
    ensures
        on.codex_logs == (s.codex.enabled && found.codex_logs),
        on.opencode_db == (s.opencode.enabled && found.opencode_db),
        on.gemini_logs == (s.gemini.enabled && found.gemini_logs),
        on.qwen_logs == (s.qwen.enabled && found.qwen_logs),
        final(snap).gemini@ == (RowView { connected: on.gemini_logs, ..empty_row() }),
        final(snap).qwen@ == (RowView { connected: on.qwen_logs, ..empty_row() }),
        !on.codex_logs ==> final(snap).codex@ == empty_row(),
        on.codex_logs ==> final(snap).codex == old(snap).codex,
        !on.opencode_db ==> final(snap).opencode@ == empty_row(),
        on.opencode_db ==> final(snap).opencode == old(snap).opencode,
        final(snap).claude == old(snap).claude,
        final(snap).copilot == old(snap).copilot,
        final(snap).cursor == old(snap).cursor,
{
    let on = LocalFound {
        codex_logs: s.codex.enabled && found.codex_logs,
        opencode_db: s.opencode.enabled && found.opencode_db,
        gemini_logs: s.gemini.enabled && found.gemini_logs,
        qwen_logs: s.qwen.enabled && found.qwen_logs,
    };
    snap.gemini = Row { connected: on.gemini_logs, ..Row::default() };
    snap.qwen = Row { connected: on.qwen_logs, ..Row::default() };
    if !on.codex_logs {
        snap.codex = Row::default();
    }
    if !on.opencode_db {
        snap.opencode = Row::default();
    }
    on
}

/// Sets all rows when the settings are applied: the local rows as
/// `reset_local_rows` does, the online rows as `reset_online_rows` does.
/// Afterwards every tool that is turned off shows nothing.
pub fn reset_rows(snap: &mut Snapshot, s: &Settings, found: LocalFound, poll_now: &Vec<Tool>) -> (on: LocalFound)
    ensures
        on.codex_logs == (s.codex.enabled && found.codex_logs),
        on.opencode_db == (s.opencode.enabled && found.opencode_db),
        on.gemini_logs == (s.gemini.enabled && found.gemini_logs),
        on.qwen_logs == (s.qwen.enabled && found.qwen_logs),
        final(snap).gemini@ == (RowView { connected: on.gemini_logs, ..empty_row() }),
        final(snap).qwen@ == (RowView { connected: on.qwen_logs, ..empty_row() }),
        !on.codex_logs ==> final(snap).codex@ == empty_row(),
        on.codex_logs ==> final(snap).codex == old(snap).codex,
        !on.opencode_db ==> final(snap).opencode@ == empty_row(),
        on.opencode_db ==> final(snap).opencode == old(snap).opencode,
        forall|t: Tool| #[trigger] reset_on_apply(t, *s, poll_now@) ==> final(snap).row_of(t)@ == empty_row(),
        forall|t: Tool| online_tools().contains(t) && !#[trigger] reset_on_apply(t, *s, poll_now@)
            ==> final(snap).row_of(t) == old(snap).row_of(t),
        off_rows_empty(*final(snap), *s),
{
    let on = reset_local_rows(snap, s, found);
    let ghost mid = *snap;
    reset_online_rows(snap, s, poll_now);
    proof {
        assert(online_tools()[0] == Tool::Claude && online_tools()[1] == Tool::Copilot
            && online_tools()[2] == Tool::Cursor);
        assert(online_tools().contains(Tool::Claude) && online_tools().contains(Tool::Copilot)
            && online_tools().contains(Tool::Cursor));
        assert(!reset_on_apply(Tool::Codex, *s, poll_now@)) by {
            assert(!online_tools().contains(Tool::Codex));
        }
        assert(!reset_on_apply(Tool::Opencode, *s, poll_now@)) by {
            assert(!online_tools().contains(Tool::Opencode));
        }
        assert(!reset_on_apply(Tool::Gemini, *s, poll_now@)) by {
            assert(!online_tools().contains(Tool::Gemini));
        }
        assert(!reset_on_apply(Tool::Qwen, *s, poll_now@)) by {
            assert(!online_tools().contains(Tool::Qwen));
        }
        assert(snap.row_of(Tool::Codex) == mid.row_of(Tool::Codex));
        assert(snap.row_of(Tool::Opencode) == mid.row_of(Tool::Opencode));
        assert(snap.row_of(Tool::Gemini) == mid.row_of(Tool::Gemini));
        assert(snap.row_of(Tool::Qwen) == mid.row_of(Tool::Qwen));
        assert forall|t: Tool| online_tools().contains(t) && !#[trigger] reset_on_apply(t, *s, poll_now@)
            implies snap.row_of(t) == old(snap).row_of(t) by {
            let k = choose|k: int| 0 <= k < online_tools().len() && online_tools()[k] == t;
        }
        assert forall|t: Tool| !#[trigger] s.provider(t).enabled implies snap.row_of(t)@ == empty_row() by {
            if t == Tool::Claude || t == Tool::Copilot || t == Tool::Cursor {
                assert(reset_on_apply(t, *s, poll_now@));
            }
        }
    }
    on
}

/// Which watched folders a batch of file changes touched.
#[derive(Debug, Clone, Copy, PartialEq, Eq, Structural)]
pub struct Touched {
    /// The Anthropic tool's project logs.
    pub claude_logs: bool,
}

/// Applies a batch of log changes: the Anthropic tool is marked for an early
/// check if its logs changed, and the Codex and opencode rows read anew
/// (`codex`, `opencode`) replace the shown ones only while those are
/// connected. Every other row stays.
pub fn apply_log_changes(
    snap: &mut Snapshot,
    claude_dirty: &mut bool,
    touched: Touched,
    codex: Option<Row>,
    opencode: Option<Row>,
)
    ensures
        *final(claude_dirty) == (*old(claude_dirty) || touched.claude_logs),
        final(snap).codex == (match codex {
            Some(r) => if old(snap).codex.connected {
                r
            } else {
                old(snap).codex
            },
            None => old(snap).codex,
        }),
        final(snap).opencode == (match opencode {
            Some(r) => if old(snap).opencode.connected {
                r
            } else {
                old(snap).opencode
            },
            None => old(snap).opencode,
        }),
        final(snap).claude == old(snap).claude,
        final(snap).gemini == old(snap).gemini,
        final(snap).qwen == old(snap).qwen,
        final(snap).copilot == old(snap).copilot,
        final(snap).cursor == old(snap).cursor,
{
    if touched.claude_logs {
        *claude_dirty = true;
    }
    match codex {
        Some(r) => if snap.codex.connected {
            snap.codex = r;
        },
        None => {},
    }
    match opencode {
        Some(r) => if snap.opencode.connected {
            snap.opencode = r;
        },
        None => {},
    }
}

} // verus!
