use quotis::json::{parse_json, Json, JsonNumber};
use quotis::text::lines_containing;
use quotis::timestamp::parse_ts;
use quotis::usage::{
    codex_row, opencode_row, parse_claude_usage, parse_codex_limits, parse_copilot, parse_cursor,
    token_entries, Percent, Row,
};

fn json(text: &str) -> Json {
    parse_json(text.as_bytes()).unwrap()
}

fn number(n: &JsonNumber) -> f64 {
    match n {
        JsonNumber::PosInt(u) => *u as f64,
        JsonNumber::NegInt(i) => *i as f64,
        JsonNumber::Float(bits) => f64::from_bits(*bits),
    }
}

fn percent(p: &Percent) -> f64 {
    match p {
        Percent::Used(n) => number(n),
        Percent::UsedClamped(n) => number(n).clamp(0.0, 100.0),
        Percent::UsedOfRemaining(n) => 100.0 - number(n).clamp(0.0, 100.0),
    }
}

fn codex_limits(log: &str) -> Option<Row> {
    parse_codex_limits(log)
}

#[test]
fn codex_takes_last_rate_limits() {
    let log = r#"{"type":"event_msg","payload":{"type":"token_count","rate_limits":{"primary":{"used_percent":1.0,"window_minutes":300,"resets_at":10},"secondary":{"used_percent":2.0,"window_minutes":10080,"resets_at":20}}}}
{"type":"event_msg","payload":{"type":"token_count","info":null,"rate_limits":{"primary":{"used_percent":4.0,"window_minutes":300,"resets_at":1790096975},"secondary":{"used_percent":53.0,"window_minutes":10080,"resets_at":1790602389}}}}
{"type":"response_item","payload":{"type":"message"}}
{"type":"event_msg","payload":{"type":"token_count","rate_limits":null}}"#;
    let r = codex_limits(log).unwrap();
    assert_eq!(percent(&r.five_hour.unwrap().used_percent), 4.0);
    assert_eq!(r.weekly.unwrap().resets_at, 1790602389);
    assert!(codex_limits(r#"{"payload":{"rate_limits":null}}"#).is_none());
}

#[test]
fn codex_skips_lines_that_do_not_parse() {
    let log = "{\"payload\":{\"rate_limits\":{\"primary\":{\"used_percent\":7,\"resets_at\":5}}}}\r\n{\"rate_limits\" broken\n";
    let r = codex_limits(log).unwrap();
    assert_eq!(percent(&r.five_hour.unwrap().used_percent), 7.0);
    assert_eq!(r.five_hour.unwrap().resets_at, 5);
    assert!(r.weekly.is_none());
}

#[test]
fn codex_row_is_connected() {
    let r = codex_row(None);
    assert!(r.connected);
    assert_eq!(r.status.as_deref(), Some("no limit data yet"));
    let found = codex_limits(r#"{"payload":{"rate_limits":{"secondary":{"used_percent":3,"resets_at":9}}}}"#);
    let r = codex_row(found);
    assert!(r.connected && r.status.is_none());
    assert_eq!(r.weekly.unwrap().resets_at, 9);
}

#[test]
fn claude_usage_response() {
    let v = json(r#"{"five_hour":{"utilization":12.0,"resets_at":"2026-09-22T14:00:00.5+00:00"},"seven_day":{"utilization":35.5,"resets_at":null},"seven_day_opus":null}"#);
    let r = parse_claude_usage(&v).unwrap();
    assert_eq!(percent(&r.five_hour.as_ref().unwrap().used_percent), 12.0);
    assert_eq!(r.five_hour.unwrap().resets_at, parse_ts("2026-09-22T14:00:00Z").unwrap());
    assert_eq!(r.weekly.unwrap().resets_at, 0);
}

#[test]
fn claude_without_windows_is_an_error() {
    assert!(parse_claude_usage(&json(r#"{"five_hour":{"resets_at":"x"},"seven_day":null}"#)).is_none());
    assert!(parse_claude_usage(&json("{}")).is_none());
    let r = parse_claude_usage(&json(r#"{"seven_day":{"utilization":3}}"#)).unwrap();
    assert!(r.five_hour.is_none() && r.weekly.is_some());
}

#[test]
fn copilot_premium_requests() {
    let v = json(r#"{"quota_reset_date":"2026-10-01","quota_reset_date_utc":"2026-10-01T00:00:00.000Z",
        "quota_snapshots":{"premium_interactions":{"percent_remaining":37.5,"unlimited":false,"entitlement":300}}}"#);
    let m = parse_copilot(&v).unwrap().monthly.unwrap();
    assert_eq!(percent(&m.used_percent), 62.5);
    assert_eq!(m.resets_at, parse_ts("2026-10-01T00:00:00Z").unwrap());
    let over = json(r#"{"quota_reset_date":"2026-10-01","quota_snapshots":{"premium_interactions":{"percent_remaining":-1.0,"unlimited":false}}}"#);
    let m = parse_copilot(&over).unwrap().monthly.unwrap();
    assert_eq!((percent(&m.used_percent), m.resets_at), (100.0, parse_ts("2026-10-01T00:00:00Z").unwrap()));
    let unl = json(r#"{"quota_snapshots":{"premium_interactions":{"unlimited":true}}}"#);
    assert!(parse_copilot(&unl).unwrap().status.is_some());
}

#[test]
fn copilot_reset_falls_back_only_when_missing() {
    let v = json(r#"{"quota_reset_date_utc":null,"quota_reset_date":"2026-10-01","quota_snapshots":{"premium_interactions":{"percent_remaining":50}}}"#);
    assert_eq!(parse_copilot(&v).unwrap().monthly.unwrap().resets_at, 0);
    assert!(parse_copilot(&json(r#"{"quota_snapshots":{}}"#)).is_none());
    assert_eq!(
        parse_copilot(&json(r#"{"quota_snapshots":{"premium_interactions":{"unlimited":true}}}"#)).unwrap().status.as_deref(),
        Some("unlimited premium requests")
    );
}

#[test]
fn cursor_usage_summary() {
    let v = json(r#"{"billingCycleEnd":"2026-10-01T09:23:29.338Z","membershipType":"pro","isUnlimited":false,
        "individualUsage":{"plan":{"used":1200,"limit":2000,"totalPercentUsed":60.0}}}"#);
    let m = parse_cursor(&v).unwrap().monthly.unwrap();
    assert_eq!((percent(&m.used_percent), m.resets_at), (60.0, parse_ts("2026-10-01T09:23:29Z").unwrap()));
    let free = json(r#"{"membershipType":"free","isUnlimited":false,"individualUsage":{"plan":{"limit":0,"totalPercentUsed":0}}}"#);
    assert_eq!(parse_cursor(&free).unwrap().status.as_deref(), Some("free plan, no included usage"));
}

#[test]
fn cursor_plans_without_usage() {
    let v = json(r#"{"individualUsage":{"plan":{"limit":-0.0}}}"#);
    assert_eq!(parse_cursor(&v).unwrap().status.as_deref(), Some("current plan, no included usage"));
    let v = json(r#"{"isUnlimited":true}"#);
    assert_eq!(parse_cursor(&v).unwrap().status.as_deref(), Some("unlimited plan"));
    let v = json(r#"{"individualUsage":{"plan":{"totalPercentUsed":140}}}"#);
    let m = parse_cursor(&v).unwrap().monthly.unwrap();
    assert_eq!((percent(&m.used_percent), m.resets_at), (100.0, 0));
    assert!(parse_cursor(&json(r#"{"individualUsage":{}}"#)).is_none());
}

#[test]
fn token_entries_read_timestamp_and_total() {
    let log = "{\"timestamp\":\"2026-09-22T00:00:00Z\",\"tokens\":{\"total\":10}}\n{\"x\":1}\n{\"timestamp\":\"bad\",\"tokens\":{\"total\":3}}\n{\"timestamp\":\"1970-01-01T00:01:00Z\",\"tokens\":{\"total\":7}}\n";
    let lines = lines_containing(log, "\"tokens\"");
    assert_eq!(lines.len(), 3);
    let e = token_entries(log);
    assert_eq!(e, vec![(parse_ts("2026-09-22T00:00:00Z").unwrap(), 10), (60, 7)]);
}

#[test]
fn opencode_rows() {
    let r = opencode_row(160, 0.5f64.to_bits(), -3, 1.75f64.to_bits());
    assert!(r.connected);
    assert_eq!((r.tokens_5h, r.tokens_24h), (Some(160), Some(0)));
    assert_eq!(f64::from_bits(r.cost_24h.unwrap()), 1.75);
    let r = quotis::usage::opencode_unreadable();
    assert_eq!(r.status.as_deref(), Some("can't read opencode.db"));
}

#[test]
fn lines_follow_str_lines() {
    let text = "a\"tokens\"\r\nb\n\"tokens\"c\r";
    let got = lines_containing(text, "\"tokens\"");
    let want: Vec<Vec<u8>> = text
        .lines()
        .filter(|l| l.contains("\"tokens\""))
        .map(|l| l.as_bytes().to_vec())
        .collect();
    assert_eq!(got, want);
    assert_eq!(lines_containing("", "x").len(), 0);
    assert_eq!(lines_containing("x\n\nx", "").len(), 3);
}

#[test]
fn latest_rate_limits_line_wins_whatever_comes_before() {
    let last = r#"{"payload":{"rate_limits":{"primary":{"used_percent":9,"resets_at":77}}}}"#;
    for before in ["", "garbage", r#"{"payload":{"rate_limits":{"primary":{"used_percent":1,"resets_at":2}}}}"#, "\"rate_limits\" not json\r"] {
        let text = format!("{before}\n{last}");
        let r = codex_limits(&text).unwrap();
        assert_eq!(percent(&r.five_hour.unwrap().used_percent), 9.0);
        assert_eq!(r.five_hour.unwrap().resets_at, 77);
        assert!(r.weekly.is_none());
    }
}

#[test]
fn token_entries_ignore_prompts_and_replies() {
    let a = "{\"timestamp\":\"1970-01-01T00:02:00Z\",\"tokens\":{\"total\":4,\"input\":1},\"content\":\"hello\"}\n{\"prompt\":\"secret\"}\n";
    let b = "{\"content\":\"other words\",\"tokens\":{\"input\":3,\"total\":4},\"timestamp\":\"1970-01-01T00:02:00Z\"}\n{\"prompt\":\"else\"}\n";
    let entries = |log: &str| token_entries(log);
    assert_eq!(entries(a), vec![(120, 4)]);
    assert_eq!(entries(a), entries(b));
}
