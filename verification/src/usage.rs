//! The rows of the widget: what each tool reports about its limits, and how a
//! row is read from the JSON that the tool or its service produces.
use vstd::prelude::*;
use vstd::utf8::encode_utf8;
use crate::json::{json_document, parse_json, Json, JsonNumber, json_get, json_get_opt, json_str, json_number, json_bool, json_i64, json_u64, number_is_zero, opt_ref, get_opt, is_zero};
use crate::timestamp::{parse_ts, timestamp_seconds, opt_int};
use crate::text::{lines_containing, lines_containing_spec, lines_from, contains_bytes, lemma_lines_containing_concat};
use vstd::string::StringSliceAdditionalSpecFns;

verus! {

/// The tools whose limits the widget shows.
#[derive(Debug, Clone, Copy, PartialEq, Eq, Hash, Structural)]
pub enum Tool {
    Claude,
    Codex,
    Gemini,
    Qwen,
    Opencode,
    Copilot,
    Cursor,
}

/// A share of a limit in percent, as the widget shows it: the number that a
/// report gave, taken by its `f64` value as it stands, clamped to `0..=100`,
/// or taken as the percentage left and turned into the percentage used
/// (`100 - x` after clamping `x` to `0..=100`).
#[derive(Debug, Clone, Copy, PartialEq, Eq, Structural)]
pub enum Percent {
    Used(JsonNumber),
    UsedClamped(JsonNumber),
    UsedOfRemaining(JsonNumber),
}

/// One usage window: how much of it is used, and when it resets (UNIX
/// seconds, `0` when unknown).
#[derive(Debug, Clone, Copy, PartialEq, Eq, Structural)]
pub struct Limit {
    pub used_percent: Percent,
    pub resets_at: i64,
}

/// The row of one tool in the widget.
#[derive(Debug, Clone)]
pub struct Row {
    pub connected: bool,
    pub five_hour: Option<Limit>,
    pub weekly: Option<Limit>,
    pub monthly: Option<Limit>,
    pub tokens_5h: Option<u64>,
    pub tokens_24h: Option<u64>,
    /// Spending in the last 5 hours, by the bits of its `f64`.
    pub cost_5h: Option<u64>,
    /// Spending in the last 24 hours, by the bits of its `f64`.
    pub cost_24h: Option<u64>,
    pub status: Option<String>,
}

/// A row with its status message as text.
pub struct RowView {
    pub connected: bool,
    pub five_hour: Option<Limit>,
    pub weekly: Option<Limit>,
    pub monthly: Option<Limit>,
    pub tokens_5h: Option<u64>,
    pub tokens_24h: Option<u64>,
    pub cost_5h: Option<u64>,
    pub cost_24h: Option<u64>,
    pub status: Option<Seq<char>>,
}

impl View for Row {
    type V = RowView;

    open spec fn view(&self) -> RowView {
        RowView {
            connected: self.connected,
            five_hour: self.five_hour,
            weekly: self.weekly,
            monthly: self.monthly,
            tokens_5h: self.tokens_5h,
            tokens_24h: self.tokens_24h,
            cost_5h: self.cost_5h,
            cost_24h: self.cost_24h,
            status: match self.status {
                Some(s) => Some(s@),
                None => None,
            },
        }
    }
}

/// A row that shows the given windows and nothing else.
pub open spec fn limits_row(five_hour: Option<Limit>, weekly: Option<Limit>, monthly: Option<Limit>) -> RowView {
    RowView {
        connected: false,
        five_hour,
        weekly,
        monthly,
        tokens_5h: None,
        tokens_24h: None,
        cost_5h: None,
        cost_24h: None,
        status: None,
    }
}

/// The empty row: not connected, nothing known.
pub open spec fn empty_row() -> RowView {
    limits_row(None, None, None)
}

/// A row that shows only a message.
pub open spec fn status_row(connected: bool, msg: Seq<char>) -> RowView {
    RowView { connected, status: Some(msg), ..empty_row() }
}

/// Whether a row shows any usage window.
pub open spec fn has_limits(r: RowView) -> bool {
    r.five_hour is Some || r.weekly is Some || r.monthly is Some
}

impl Default for Row {
    fn default() -> (r: Row)
        ensures
            r@ == empty_row(),
    {
        Row {
            connected: false,
            five_hour: None,
            weekly: None,
            monthly: None,
            tokens_5h: None,
            tokens_24h: None,
            cost_5h: None,
            cost_24h: None,
            status: None,
        }
    }
}

/// A row that shows only `msg`.
pub fn message_row(connected: bool, msg: &str) -> (r: Row)
    ensures
        r@ == status_row(connected, msg@),
{
    Row { connected, status: Some(String::from_str(msg)), ..Row::default() }
}

/// The time at which a window resets, from its optional text: the UNIX time of
/// the timestamp, or `0` when there is none or it does not parse.
pub open spec fn reset_time(s: Option<Seq<char>>) -> i64 {
    match s {
        Some(t) => match timestamp_seconds(encode_utf8(t)) {
            Some(x) => x as i64,
            None => 0,
        },
        None => 0,
    }
}

fn reset_time_of(s: Option<&str>) -> (r: i64)
    ensures
        r == reset_time(match s {
            Some(t) => Some(t@),
            None => None,
        }),
{
    match s {
        Some(t) => match parse_ts(t) {
            Some(x) => x,
            None => 0,
        },
        None => 0,
    }
}

/// A window of the Anthropic usage report: its `utilization` as reported and its
/// `resets_at` timestamp; none without a numeric `utilization`.
pub open spec fn claude_window(w: Option<Json>) -> Option<Limit> {
    match w {
        Some(w) => match json_number(json_get(w, "utilization"@)) {
            Some(n) => Some(
                Limit {
                    used_percent: Percent::Used(n),
                    resets_at: reset_time(json_str(json_get(w, "resets_at"@))),
                },
            ),
            None => None,
        },
        None => None,
    }
}

/// A usage window counts whatever its share is, 0 included: a window object
/// whose `utilization` is a number gives a window with that number used.
pub proof fn lemma_claude_window_any_share(w: Json, n: JsonNumber)
    requires
        json_number(json_get(w, "utilization"@)) == Some(n),
    ensures
        claude_window(Some(w)) matches Some(l) && l.used_percent == Percent::Used(n),
{
}

/// Each window of the Anthropic reply that carries a numeric share shows in
/// the row with that share (a share of 0 included), so the reply is read,
/// not refused.
pub proof fn lemma_claude_usage_keeps_windows(v: Json)
    ensures
        json_number(json_get_opt(json_get(v, "five_hour"@), "utilization"@)) matches Some(n)
            ==> claude_window(json_get(v, "five_hour"@)) matches Some(l) && l.used_percent
            == Percent::Used(n),
        json_number(json_get_opt(json_get(v, "seven_day"@), "utilization"@)) matches Some(n)
            ==> claude_window(json_get(v, "seven_day"@)) matches Some(l) && l.used_percent
            == Percent::Used(n),
{
}

/// A window resets at the time its `resets_at` text gives, and at `0` when it
/// has no such text or the text is not a timestamp.
pub proof fn lemma_claude_window_reset(w: Json, n: JsonNumber)
    requires
        json_number(json_get(w, "utilization"@)) == Some(n),
    ensures
        claude_window(Some(w)) matches Some(l) && l.resets_at == match json_str(json_get(w, "resets_at"@)) {
            Some(t) => match timestamp_seconds(encode_utf8(t)) {
                Some(x) => x as i64,
                None => 0i64,
            },
            None => 0i64,
        },
{
}

/// Without a numeric `utilization` there is no window.
pub proof fn lemma_claude_window_needs_share(w: Option<Json>)
    requires
        w matches Some(x) ==> json_number(json_get(x, "utilization"@)) is None,
    ensures
        claude_window(w) is None,
{
}

fn claude_window_of(w: Option<&Json>) -> (r: Option<Limit>)
    ensures
        r == claude_window(opt_ref(w)),
{
    let w = match w {
        Some(w) => w,
        None => return None,
    };
    let n = match w.get("utilization") {
        Some(u) => match u.as_number() {
            Some(n) => n,
            None => return None,
        },
        None => return None,
    };
    let at = match w.get("resets_at") {
        Some(x) => x.as_str(),
        None => None,
    };
    Some(Limit { used_percent: Percent::Used(n), resets_at: reset_time_of(at) })
}

/// Reads the reply of Anthropic's usage endpoint: the 5-hour window from
/// `five_hour` and the weekly one from `seven_day`; `None` when neither is
/// there, so that a changed endpoint shows as an error, not as an empty row.
pub fn parse_claude_usage(v: &Json) -> (r: Option<Row>)
    ensures
        r is None <==> (claude_window(json_get(*v, "five_hour"@)) is None && claude_window(
            json_get(*v, "seven_day"@),
        ) is None),
        r matches Some(row) ==> row@ == limits_row(
            claude_window(json_get(*v, "five_hour"@)),
            claude_window(json_get(*v, "seven_day"@)),
            None,
        ),
{
    let five_hour = claude_window_of(v.get("five_hour"));
    let weekly = claude_window_of(v.get("seven_day"));
    if five_hour.is_none() && weekly.is_none() {
        return None;
    }
    Some(Row { five_hour, weekly, ..Row::default() })
}

/// When Copilot's quota resets: `quota_reset_date_utc`, or `quota_reset_date`
/// where the first is missing, read as a timestamp or else as a date at
/// midnight UTC; `0` when neither gives a time.
pub open spec fn copilot_reset(v: Json) -> i64 {
    let date = match json_get(v, "quota_reset_date_utc"@) {
        Some(x) => Some(x),
        None => json_get(v, "quota_reset_date"@),
    };
    match json_str(date) {
        Some(s) => match timestamp_seconds(encode_utf8(s)) {
            Some(x) => x as i64,
            None => match timestamp_seconds(encode_utf8(s + "T00:00:00Z"@)) {
                Some(x) => x as i64,
                None => 0,
            },
        },
        None => 0,
    }
}

/// The row that Copilot's user report gives, from its premium-interactions
/// quota: a message for an unlimited quota, else the monthly window.
pub open spec fn copilot_row(v: Json) -> Option<RowView> {
    match json_get_opt(json_get(v, "quota_snapshots"@), "premium_interactions"@) {
        Some(p) => if json_bool(json_get(p, "unlimited"@)) == Some(true) {
            Some(status_row(false, "unlimited premium requests"@))
        } else {
            match json_number(json_get(p, "percent_remaining"@)) {
                Some(n) => Some(
                    limits_row(
                        None,
                        None,
                        Some(
                            Limit {
                                used_percent: Percent::UsedOfRemaining(n),
                                resets_at: copilot_reset(v),
                            },
                        ),
                    ),
                ),
                None => None,
            }
        },
        None => None,
    }
}

/// An unlimited premium-request quota shows as the message "unlimited
/// premium requests" and no window, whatever else the quota holds.
pub proof fn lemma_copilot_unlimited_wins(v: Json, p: Json)
    requires
        json_get_opt(json_get(v, "quota_snapshots"@), "premium_interactions"@) == Some(p),
        json_bool(json_get(p, "unlimited"@)) == Some(true),
    ensures
        copilot_row(v) matches Some(r) && r.status == Some("unlimited premium requests"@)
            && !r.connected && r.five_hour is None && r.weekly is None && r.monthly is None,
{
}

/// A limited premium-request quota shows as the monthly window, with the
/// share used counted from the share remaining, and no message; a report
/// without the quota, or with a limited one that gives no share, gives no row.
pub proof fn lemma_copilot_limited_quota(v: Json)
    ensures
        match json_get_opt(json_get(v, "quota_snapshots"@), "premium_interactions"@) {
            None => copilot_row(v) is None,
            Some(p) => json_bool(json_get(p, "unlimited"@)) != Some(true) ==> match json_number(
                json_get(p, "percent_remaining"@),
            ) {
                Some(n) => copilot_row(v) matches Some(r) && r.monthly matches Some(l) && l.used_percent
                    == Percent::UsedOfRemaining(n) && l.resets_at == copilot_reset(v) && r.status is None
                    && !r.connected && r.five_hour is None && r.weekly is None,
                None => copilot_row(v) is None,
            },
        },
{
}

/// Copilot's quota resets at `quota_reset_date_utc` where that is a timestamp,
/// else, where that field is missing, at `quota_reset_date` if that is a
/// timestamp; at `0` when the field that counts is missing or not text.
pub proof fn lemma_copilot_reset_field(v: Json)
    ensures
        match json_get(v, "quota_reset_date_utc"@) {
            Some(Json::String(t)) => match timestamp_seconds(encode_utf8(t@)) {
                Some(x) => copilot_reset(v) == x as i64,
                None => true,
            },
            Some(_) => copilot_reset(v) == 0,
            None => match json_get(v, "quota_reset_date"@) {
                Some(Json::String(t)) => match timestamp_seconds(encode_utf8(t@)) {
                    Some(x) => copilot_reset(v) == x as i64,
                    None => true,
                },
                _ => copilot_reset(v) == 0,
            },
        },
{
}

fn copilot_reset_of(v: &Json) -> (r: i64)
    ensures
        r == copilot_reset(*v),
{
    let date = match v.get("quota_reset_date_utc") {
        Some(x) => Some(x),
        None => v.get("quota_reset_date"),
    };
    let s = match date {
        Some(d) => match d.as_str() {
            Some(s) => s,
            None => return 0,
        },
        None => return 0,
    };
    match parse_ts(s) {
        Some(x) => x,
        None => {
            let mut t = String::from_str(s);
            t.append("T00:00:00Z");
            match parse_ts(t.as_str()) {
                Some(x) => x,
                None => 0,
            }
        },
    }
}

/// Reads Copilot's user report.
pub fn parse_copilot(v: &Json) -> (r: Option<Row>)
    ensures
        match copilot_row(*v) {
            Some(row) => r matches Some(x) && x@ == row,
            None => r is None,
        },
{
    let p = match get_opt(v.get("quota_snapshots"), "premium_interactions") {
        Some(p) => p,
        None => return None,
    };
    let unlimited = match p.get("unlimited") {
        Some(u) => u.as_bool(),
        None => None,
    };
    if unlimited == Some(true) {
        return Some(message_row(false, "unlimited premium requests"));
    }
    let n = match p.get("percent_remaining") {
        Some(x) => match x.as_number() {
            Some(n) => n,
            None => return None,
        },
        None => return None,
    };
    let resets_at = copilot_reset_of(v);
    Some(
        Row {
            monthly: Some(Limit { used_percent: Percent::UsedOfRemaining(n), resets_at }),
            ..Row::default()
        },
    )
}

/// The row that Cursor's usage summary gives: a message for an unlimited plan
/// or a plan without included usage (limit `0`), else the monthly window
/// from `totalPercentUsed`, resetting at `billingCycleEnd`.
pub open spec fn cursor_row(v: Json) -> Option<RowView> {
    if json_bool(json_get(v, "isUnlimited"@)) == Some(true) {
        Some(status_row(false, "unlimited plan"@))
    } else {
        match json_get_opt(json_get(v, "individualUsage"@), "plan"@) {
            Some(plan) => {
                let resets_at = reset_time(json_str(json_get(v, "billingCycleEnd"@)));
                let no_usage = match json_number(json_get(plan, "limit"@)) {
                    Some(n) => number_is_zero(n),
                    None => false,
                };
                if no_usage {
                    let tier = match json_str(json_get(v, "membershipType"@)) {
                        Some(t) => t,
                        None => "current"@,
                    };
                    Some(status_row(false, tier + " plan, no included usage"@))
                } else {
                    match json_number(json_get(plan, "totalPercentUsed"@)) {
                        Some(n) => Some(
                            limits_row(
                                None,
                                None,
                                Some(Limit { used_percent: Percent::UsedClamped(n), resets_at }),
                            ),
                        ),
                        None => None,
                    }
                }
            },
            None => None,
        }
    }
}

/// An unlimited Cursor plan shows as the message "unlimited plan" and no
/// window, whatever its individual usage holds.
pub proof fn lemma_cursor_unlimited_wins(v: Json)
    requires
        json_bool(json_get(v, "isUnlimited"@)) == Some(true),
    ensures
        cursor_row(v) matches Some(r) && r.status == Some("unlimited plan"@) && !r.connected
            && r.five_hour is None && r.weekly is None && r.monthly is None,
{
}

/// A plan that is not unlimited: one with an included-usage limit of `0`
/// shows as the message "<membership> plan, no included usage" ("current"
/// without a membership); any other shows its `totalPercentUsed` as the
/// monthly window, resetting at `billingCycleEnd`; without a plan there is no row.
pub proof fn lemma_cursor_limited_plan(v: Json)
    requires
        json_bool(json_get(v, "isUnlimited"@)) != Some(true),
    ensures
        json_get_opt(json_get(v, "individualUsage"@), "plan"@) is None ==> cursor_row(v) is None,
        json_get_opt(json_get(v, "individualUsage"@), "plan"@) matches Some(plan) ==> (if json_number(
            json_get(plan, "limit"@),
        ) matches Some(m) && number_is_zero(m) {
            cursor_row(v) matches Some(r) && r.status == Some(
                match json_str(json_get(v, "membershipType"@)) {
                    Some(t) => t,
                    None => "current"@,
                } + " plan, no included usage"@,
            ) && r.monthly is None && !r.connected
        } else {
            match json_number(json_get(plan, "totalPercentUsed"@)) {
                Some(n) => cursor_row(v) matches Some(r) && r.monthly matches Some(l) && l.used_percent
                    == Percent::UsedClamped(n) && l.resets_at == reset_time(
                    json_str(json_get(v, "billingCycleEnd"@)),
                ) && r.status is None && !r.connected,
                None => cursor_row(v) is None,
            }
        }),
{
}

/// Reads Cursor's usage summary.
pub fn parse_cursor(v: &Json) -> (r: Option<Row>)
    ensures
        match cursor_row(*v) {
            Some(row) => r matches Some(x) && x@ == row,
            None => r is None,
        },
{
    let unlimited = match v.get("isUnlimited") {
        Some(u) => u.as_bool(),
        None => None,
    };
    if unlimited == Some(true) {
        return Some(message_row(false, "unlimited plan"));
    }
    let plan = match get_opt(v.get("individualUsage"), "plan") {
        Some(p) => p,
        None => return None,
    };
    let end = match v.get("billingCycleEnd") {
        Some(x) => x.as_str(),
        None => None,
    };
    let resets_at = reset_time_of(end);
    let no_usage = match plan.get("limit") {
        Some(l) => match l.as_number() {
            Some(n) => is_zero(n),
            None => false,
        },
        None => false,
    };
    if no_usage {
        let tier = match v.get("membershipType") {
            Some(t) => match t.as_str() {
                Some(t) => t,
                None => "current",
            },
            None => "current",
        };
        let mut msg = String::from_str(tier);
        msg.append(" plan, no included usage");
        return Some(Row { status: Some(msg), ..Row::default() });
    }
    let n = match plan.get("totalPercentUsed") {
        Some(x) => match x.as_number() {
            Some(n) => n,
            None => return None,
        },
        None => return None,
    };
    Some(
        Row {
            monthly: Some(Limit { used_percent: Percent::UsedClamped(n), resets_at }),
            ..Row::default()
        },
    )
}

/// A window of a Codex rate-limit event: `used_percent` as reported and the
/// integer `resets_at`; none unless both are there.
pub open spec fn codex_window(w: Option<Json>) -> Option<Limit> {
    match w {
        Some(w) => match (
            json_number(json_get(w, "used_percent"@)),
            json_i64(json_get(w, "resets_at"@)),
        ) {
            (Some(n), Some(t)) => Some(Limit { used_percent: Percent::Used(n), resets_at: t }),
            _ => None,
        },
        None => None,
    }
}

/// The row that one Codex log event gives: the `primary` (5-hour) and
/// `secondary` (weekly) windows of `payload.rate_limits`; none if it has neither.
pub open spec fn codex_event_row(v: Json) -> Option<RowView> {
    match json_get_opt(json_get(v, "payload"@), "rate_limits"@) {
        Some(rl) => {
            let five_hour = codex_window(json_get(rl, "primary"@));
            let weekly = codex_window(json_get(rl, "secondary"@));
            if five_hour is Some || weekly is Some {
                Some(limits_row(five_hour, weekly, None))
            } else {
                None
            }
        },
        None => None,
    }
}

fn codex_window_of(w: Option<&Json>) -> (r: Option<Limit>)
    ensures
        r == codex_window(opt_ref(w)),
{
    let w = match w {
        Some(w) => w,
        None => return None,
    };
    let n = match w.get("used_percent") {
        Some(x) => x.as_number(),
        None => None,
    };
    let t = match w.get("resets_at") {
        Some(x) => x.as_i64(),
        None => None,
    };
    match (n, t) {
        (Some(n), Some(t)) => Some(Limit { used_percent: Percent::Used(n), resets_at: t }),
        _ => None,
    }
}

/// Reads the rate limits of one Codex log event.
pub fn codex_event_limits(v: &Json) -> (r: Option<Row>)
    ensures
        match codex_event_row(*v) {
            Some(row) => r matches Some(x) && x@ == row,
            None => r is None,
        },
{
    let rl = match get_opt(v.get("payload"), "rate_limits") {
        Some(x) => x,
        None => return None,
    };
    let five_hour = codex_window_of(rl.get("primary"));
    let weekly = codex_window_of(rl.get("secondary"));
    if five_hour.is_some() || weekly.is_some() {
        Some(Row { five_hour, weekly, ..Row::default() })
    } else {
        None
    }
}

/// The row of the latest event, in log order, that reports rate limits
/// (events that did not parse stand as `None`).
pub open spec fn latest_codex_row(events: Seq<Option<Json>>) -> Option<RowView>
    decreases events.len(),
{
    if events.len() == 0 {
        None
    } else {
        match events.last() {
            Some(v) => match codex_event_row(v) {
                Some(r) => Some(r),
                None => latest_codex_row(events.drop_last()),
            },
            None => latest_codex_row(events.drop_last()),
        }
    }
}

/// The last event of a log that reports rate limits decides: what came before
/// it does not matter.
pub proof fn lemma_latest_event_wins(events: Seq<Option<Json>>, v: Json)
    requires
        codex_event_row(v) is Some,
    ensures
        latest_codex_row(events.push(Some(v))) == codex_event_row(v),
{
    assert(events.push(Some(v)).last() == Some(v));
}

proof fn lemma_latest_of_concat(s: Seq<Option<Json>>, t: Seq<Option<Json>>)
    requires
        latest_codex_row(t) is Some,
    ensures
        latest_codex_row(s + t) == latest_codex_row(t),
    decreases t.len(),
{
    assert((s + t).last() == t.last());
    assert((s + t).drop_last() =~= s + t.drop_last());
    match t.last() {
        Some(v) => {
            if codex_event_row(v) is None {
                lemma_latest_of_concat(s, t.drop_last());
            }
        },
        None => {
            lemma_latest_of_concat(s, t.drop_last());
        },
    }
}

/// The lines of `text` that contain `needle`, in order, each read as a JSON
/// document (`None` where it is not one).
pub open spec fn parsed_lines(text: Seq<u8>, needle: Seq<u8>) -> Seq<Option<Json>> {
    lines_containing_spec(text, needle).map_values(|l: Seq<u8>| json_document(l))
}

fn parse_lines(text: &str, needle: &str) -> (r: Vec<Option<Json>>)
    ensures
        r@ == parsed_lines(text.spec_bytes(), needle.spec_bytes()),
{
    let lines = lines_containing(text, needle);
    let ghost want = lines_containing_spec(text.spec_bytes(), needle.spec_bytes());
    assert(lines@.len() == want.len()) by {
        assert(lines@.map_values(|l: Vec<u8>| l@).len() == lines@.len());
    }
    let mut out: Vec<Option<Json>> = Vec::new();
    let mut i: usize = 0;
    while i < lines.len()
        invariant
            i <= lines.len(),
            lines@.len() == want.len(),
            lines@.map_values(|l: Vec<u8>| l@) == want,
            out@.len() == i,
            forall|k: int| 0 <= k < i ==> out@[k] == json_document(#[trigger] want[k]),
        decreases lines.len() - i,
    {
        let j = parse_json(lines[i].as_slice());
        assert(lines@.map_values(|l: Vec<u8>| l@)[i as int] == lines@[i as int]@);
        out.push(j);
        i = i + 1;
    }
    assert(out@ =~= parsed_lines(text.spec_bytes(), needle.spec_bytes()));
    out
}

/// The latest rate-limit line of a log decides, whatever text comes before it:
/// the limits read from `a`, a line break, then `b` are those read from `b`
/// alone once `b` has a line with limits.
pub proof fn lemma_latest_line_wins(a: Seq<u8>, b: Seq<u8>, needle: Seq<u8>)
    requires
        latest_codex_row(parsed_lines(b, needle)) is Some,
    ensures
        latest_codex_row(parsed_lines(a + seq![10u8] + b, needle)) == latest_codex_row(parsed_lines(b, needle)),
{
    lemma_lines_containing_concat(a, b, needle);
    let f = |l: Seq<u8>| json_document(l);
    let x = lines_containing_spec(a + seq![10u8], needle);
    let y = lines_containing_spec(b, needle);
    assert((x + y).map_values(f) =~= x.map_values(f) + y.map_values(f));
    lemma_latest_of_concat(x.map_values(f), y.map_values(f));
}

/// The rate limits of a Codex session log, from its rate-limit events in log
/// order: those of the last event that has any.
pub fn latest_codex_limits(events: &Vec<Option<Json>>) -> (r: Option<Row>)
    ensures
        match latest_codex_row(events@) {
            Some(row) => r matches Some(x) && x@ == row,
            None => r is None,
        },
{
    let mut i = events.len();
    assert(events@.take(i as int) =~= events@);
    while i > 0
        invariant
            i <= events.len(),
            latest_codex_row(events@) == latest_codex_row(events@.take(i as int)),
        decreases i,
    {
        let ghost t = events@.take(i as int);
        assert(t.drop_last() =~= events@.take(i - 1));
        assert(t.last() == events@[i - 1]);
        match &events[i - 1] {
            Some(v) => {
                let r = codex_event_limits(v);
                if r.is_some() {
                    return r;
                }
            },
            None => {},
        }
        i = i - 1;
    }
    None
}

/// The rate limits of a Codex session log's text: its lines that hold
/// `"rate_limits"`, each read as JSON, and of those the last with limits.
pub fn parse_codex_limits(text: &str) -> (r: Option<Row>)
    ensures
        match latest_codex_row(parsed_lines(text.spec_bytes(), "\"rate_limits\"".spec_bytes())) {
            Some(row) => r matches Some(x) && x@ == row,
            None => r is None,
        },
{
    let events = parse_lines(text, "\"rate_limits\"");
    latest_codex_limits(&events)
}

/// The Codex row: the limits found in the most recent log that has some, shown
/// as connected, or a message while no log has any yet.
pub open spec fn codex_row_of(found: Option<RowView>) -> RowView {
    match found {
        Some(r) => RowView { connected: true, ..r },
        None => status_row(true, "no limit data yet"@),
    }
}

/// Builds the Codex row from what the logs gave.
pub fn codex_row(found: Option<Row>) -> (r: Row)
    ensures
        r@ == codex_row_of(match found {
            Some(x) => Some(x@),
            None => None,
        }),
{
    match found {
        Some(mut row) => {
            row.connected = true;
            row
        },
        None => message_row(true, "no limit data yet"),
    }
}

/// A token-count event of a Gemini or Qwen chat log: its `timestamp` (UNIX
/// seconds) and its `tokens.total`.
pub open spec fn token_entry(v: Json) -> Option<(i64, u64)> {
    match (
        json_str(json_get(v, "timestamp"@)),
        json_u64(json_get_opt(json_get(v, "tokens"@), "total"@)),
    ) {
        (Some(s), Some(n)) => match timestamp_seconds(encode_utf8(s)) {
            Some(t) => Some((t as i64, n)),
            None => None,
        },
        _ => None,
    }
}

/// The token entries of a log, in log order, from its token events (events
/// that did not parse stand as `None`).
pub open spec fn token_entries_of(events: Seq<Option<Json>>) -> Seq<(i64, u64)>
    decreases events.len(),
{
    if events.len() == 0 {
        Seq::empty()
    } else {
        let rest = token_entries_of(events.drop_last());
        match events.last() {
            Some(v) => match token_entry(v) {
                Some(e) => rest.push(e),
                None => rest,
            },
            None => rest,
        }
    }
}

/// What a token count reads of an event: its `timestamp` and its
/// `tokens.total` (`None` for an event that did not parse).
pub open spec fn token_fields(e: Option<Json>) -> Option<(Option<Seq<char>>, Option<u64>)> {
    match e {
        Some(v) => Some(
            (json_str(json_get(v, "timestamp"@)), json_u64(json_get_opt(json_get(v, "tokens"@), "total"@))),
        ),
        None => None,
    }
}

/// Token counting reads nothing of an event but its timestamp and total:
/// events that agree on those, one for one, give the same entries.
pub proof fn lemma_token_entries_read_only_fields(e1: Seq<Option<Json>>, e2: Seq<Option<Json>>)
    requires
        e1.len() == e2.len(),
        forall|i: int| 0 <= i < e1.len() ==> token_fields(#[trigger] e1[i]) == token_fields(e2[i]),
    ensures
        token_entries_of(e1) == token_entries_of(e2),
    decreases e1.len(),
{
    if e1.len() > 0 {
        let n = e1.len() - 1;
        assert(token_fields(e1[n]) == token_fields(e2[n]));
        lemma_token_entries_read_only_fields(e1.drop_last(), e2.drop_last());
    }
}

proof fn lemma_filtered_fields(
    l1: Seq<Seq<u8>>,
    l2: Seq<Seq<u8>>,
    needle: Seq<u8>,
)
    requires
        l1.len() == l2.len(),
        forall|i: int|
            0 <= i < l1.len() ==> (contains_bytes(#[trigger] l1[i], needle) == contains_bytes(l2[i], needle)
                && (contains_bytes(l1[i], needle) ==> token_fields(json_document(l1[i])) == token_fields(json_document(l2[i])))),
    ensures
        ({
            let f = |l: Seq<u8>| contains_bytes(l, needle);
            let a = l1.filter(f).map_values(|l: Seq<u8>| json_document(l));
            let b = l2.filter(f).map_values(|l: Seq<u8>| json_document(l));
            a.len() == b.len() && forall|k: int| 0 <= k < a.len() ==> token_fields(#[trigger] a[k]) == token_fields(b[k])
        }),
    decreases l1.len(),
{
    let f = |l: Seq<u8>| contains_bytes(l, needle);
    if l1.len() > 0 {
        let n = l1.len() - 1;
        assert(contains_bytes(l1[n], needle) == contains_bytes(l2[n], needle));
        assert(l1.drop_last().len() == l2.drop_last().len());
        assert forall|i: int| 0 <= i < l1.drop_last().len() implies (contains_bytes(
            #[trigger] l1.drop_last()[i],
            needle,
        ) == contains_bytes(l2.drop_last()[i], needle) && (contains_bytes(l1.drop_last()[i], needle)
            ==> token_fields(json_document(l1.drop_last()[i])) == token_fields(json_document(l2.drop_last()[i])))) by {
            assert(l1.drop_last()[i] == l1[i]);
            assert(l2.drop_last()[i] == l2[i]);
        }
        lemma_filtered_fields(l1.drop_last(), l2.drop_last(), needle);
        reveal(Seq::filter);
        let a1 = l1.drop_last().filter(f);
        let b1 = l2.drop_last().filter(f);
        assert(l1.last() == l1[n] && l2.last() == l2[n]);
        if f(l1.last()) {
            assert(l1.filter(f).map_values(|l: Seq<u8>| json_document(l)) =~= a1.map_values(|l: Seq<u8>| json_document(l)).push(json_document(l1.last())));
            assert(l2.filter(f).map_values(|l: Seq<u8>| json_document(l)) =~= b1.map_values(|l: Seq<u8>| json_document(l)).push(json_document(l2.last())));
        } else {
            assert(l1.filter(f) == a1);
            assert(l2.filter(f) == b1);
        }
    }
}

/// A log's token entries depend only on the timestamp and total of its token
/// lines: two logs with as many lines, that agree line for line on whether the
/// line holds `needle` and, where it does, on those two fields of the line
/// read as JSON (prompts, replies and any other field may differ), give the same
/// entries.
pub proof fn lemma_token_lines_read_only_fields(
    f1: Seq<u8>,
    f2: Seq<u8>,
    needle: Seq<u8>,
)
    requires
        lines_from(f1, 0).len() == lines_from(f2, 0).len(),
        forall|i: int|
            0 <= i < lines_from(f1, 0).len() ==> (contains_bytes(#[trigger] lines_from(f1, 0)[i], needle)
                == contains_bytes(lines_from(f2, 0)[i], needle) && (contains_bytes(lines_from(f1, 0)[i], needle)
                ==> token_fields(json_document(lines_from(f1, 0)[i])) == token_fields(json_document(lines_from(f2, 0)[i])))),
    ensures
        token_entries_of(parsed_lines(f1, needle)) == token_entries_of(parsed_lines(f2, needle)),
{
    lemma_filtered_fields(lines_from(f1, 0), lines_from(f2, 0), needle);
    lemma_token_entries_read_only_fields(parsed_lines(f1, needle), parsed_lines(f2, needle));
}

fn token_entry_of(v: &Json) -> (r: Option<(i64, u64)>)
    ensures
        r == token_entry(*v),
{
    let s = match v.get("timestamp") {
        Some(x) => x.as_str(),
        None => None,
    };
    let n = match get_opt(v.get("tokens"), "total") {
        Some(x) => x.as_u64(),
        None => None,
    };
    match (s, n) {
        (Some(s), Some(n)) => match parse_ts(s) {
            Some(t) => Some((t, n)),
            None => None,
        },
        _ => None,
    }
}

/// The `(timestamp, tokens)` entries of a Gemini or Qwen log.
pub fn token_entries_of_events(events: &Vec<Option<Json>>) -> (r: Vec<(i64, u64)>)
    ensures
        r@ == token_entries_of(events@),
{
    let mut out: Vec<(i64, u64)> = Vec::new();
    let mut i: usize = 0;
    assert(events@.take(0) =~= Seq::<Option<Json>>::empty());
    while i < events.len()
        invariant
            i <= events.len(),
            out@ == token_entries_of(events@.take(i as int)),
        decreases events.len() - i,
    {
        let ghost t = events@.take(i + 1);
        assert(t.drop_last() =~= events@.take(i as int));
        assert(t.last() == events@[i as int]);
        match &events[i] {
            Some(v) => match token_entry_of(v) {
                Some(e) => out.push(e),
                None => {},
            },
            None => {},
        }
        i = i + 1;
    }
    assert(events@.take(events.len() as int) =~= events@);
    out
}

/// The `(timestamp, tokens)` entries of a Gemini or Qwen log's text: its
/// lines that hold `"tokens"`, each read as JSON.
pub fn token_entries(text: &str) -> (r: Vec<(i64, u64)>)
    ensures
        r@ == token_entries_of(parsed_lines(text.spec_bytes(), "\"tokens\"".spec_bytes())),
{
    let events = parse_lines(text, "\"tokens\"");
    token_entries_of_events(&events)
}

/// The opencode row from its database totals: tokens (negative sums read as
/// `0`) and spending (by its `f64` bits) over the last 5 and 24 hours.
pub fn opencode_row(tokens_5h: i64, cost_5h: u64, tokens_24h: i64, cost_24h: u64) -> (r: Row)
    ensures
        r@ == (RowView {
            connected: true,
            tokens_5h: Some(if tokens_5h < 0 { 0 } else { tokens_5h as u64 }),
            tokens_24h: Some(if tokens_24h < 0 { 0 } else { tokens_24h as u64 }),
            cost_5h: Some(cost_5h),
            cost_24h: Some(cost_24h),
            ..empty_row()
        }),
{
    let t5: u64 = if tokens_5h < 0 { 0 } else { tokens_5h as u64 };
    let t24: u64 = if tokens_24h < 0 { 0 } else { tokens_24h as u64 };
    Row {
        connected: true,
        tokens_5h: Some(t5),
        tokens_24h: Some(t24),
        cost_5h: Some(cost_5h),
        cost_24h: Some(cost_24h),
        ..Row::default()
    }
}

/// The opencode row when its database cannot be opened.
pub fn opencode_unreadable() -> (r: Row)
    ensures
        r@ == status_row(true, "can't read opencode.db"@),
{
    message_row(true, "can't read opencode.db")
}

} // verus!
