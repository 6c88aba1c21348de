use quotis::auth::{
    bearer, claude_login, claude_login_of_text, claude_token, copilot_step, copilot_tokens,
    copilot_tokens_of_texts, cursor_cookie, cursor_session_cookie, github_token_header, CopilotStep,
};
use quotis::json::{parse_json, Json, JsonNumber};
use quotis::net::{parse_u64, reply_json, response_error};
use quotis::poll::NetErr;

fn json(text: &str) -> Json {
    parse_json(text.as_bytes()).unwrap()
}

#[test]
fn claude_tokens_and_expiry() {
    let creds = json(r#"{"claudeAiOauth":{"accessToken":"tok","expiresAt":1999}}"#);
    assert_eq!(claude_token(&creds, 1).ok(), Some("tok"));
    assert!(matches!(claude_token(&creds, 2), Err(NetErr::Expired)));
    let neg = json(r#"{"claudeAiOauth":{"accessToken":"tok","expiresAt":-1999}}"#);
    assert_eq!(claude_token(&neg, -1).ok(), Some("tok"));
    assert!(matches!(claude_token(&neg, 0), Err(NetErr::Expired)));
    let none = json(r#"{"claudeAiOauth":{"expiresAt":5}}"#);
    assert!(matches!(claude_token(&none, 0), Err(NetErr::NotSignedIn)));
    let forever = json(r#"{"claudeAiOauth":{"accessToken":"t"}}"#);
    assert_eq!(claude_token(&forever, i64::MAX).ok(), Some("t"));
    assert!(claude_login(json(r#"{"other":1}"#)).is_none());
    assert!(claude_login(forever).is_some());
    assert_eq!(bearer("abc"), "Bearer abc");
    assert_eq!(github_token_header("abc"), "token abc");
}

#[test]
fn copilot_login_files() {
    let files = vec![
        json(r#"{"github.com:Iv1":{"oauth_token":"one","user":"x"},"b":{"user":"y"}}"#),
        json(r#"[1,2]"#),
        json(r#"{"github.com":{"oauth_token":"two"}}"#),
    ];
    assert_eq!(copilot_tokens(&files), vec!["one".to_string(), "two".to_string()]);
}

#[test]
fn copilot_tries_tokens_in_turn() {
    let ok = json(r#"{"quota_snapshots":{"premium_interactions":{"unlimited":true}}}"#);
    let bad = json(r#"{"other":1}"#);
    match copilot_step(NetErr::Expired, Err(NetErr::Expired)) {
        CopilotStep::Next(NetErr::Expired) => {}
        other => panic!("{:?}", other),
    }
    match copilot_step(NetErr::Expired, Err(NetErr::Unavailable("offline"))) {
        CopilotStep::Next(NetErr::Unavailable("offline")) => {}
        other => panic!("{:?}", other),
    }
    match copilot_step(NetErr::Expired, Ok(&ok)) {
        CopilotStep::Done(Ok(r)) => assert_eq!(r.status.as_deref(), Some("unlimited premium requests")),
        other => panic!("{:?}", other),
    }
    match copilot_step(NetErr::Expired, Ok(&bad)) {
        CopilotStep::Done(Err(NetErr::Unavailable(m))) => assert_eq!(m, "bad response"),
        other => panic!("{:?}", other),
    }
}

#[test]
fn cursor_cookies() {
    let claims = json(r#"{"sub":"auth0|user_123"}"#);
    assert_eq!(
        cursor_cookie("tok", &claims).unwrap(),
        "WorkosCursorSessionToken=user_123%3A%3Atok"
    );
    let plain = json(r#"{"sub":"u"}"#);
    assert_eq!(cursor_cookie("t", &plain).unwrap(), "WorkosCursorSessionToken=u%3A%3At");
    assert!(matches!(cursor_cookie("t", &json(r#"{"sub":3}"#)), Err(NetErr::NotSignedIn)));
}

#[test]
fn http_status_outcomes() {
    assert!(response_error(200, None).is_none());
    assert!(matches!(response_error(429, Some(" 120 ")), Some(NetErr::RateLimited(Some(120)))));
    assert!(matches!(response_error(429, Some("soon")), Some(NetErr::RateLimited(None))));
    assert!(matches!(response_error(429, None), Some(NetErr::RateLimited(None))));
    assert!(matches!(response_error(401, None), Some(NetErr::Expired)));
    assert!(matches!(response_error(403, None), Some(NetErr::Expired)));
    assert!(matches!(response_error(500, None), Some(NetErr::Unavailable("unavailable"))));
}

#[test]
fn u64_fields() {
    assert_eq!(parse_u64("18446744073709551615"), Some(u64::MAX));
    assert_eq!(parse_u64("18446744073709551616"), None);
    assert_eq!(parse_u64("+7"), Some(7));
    assert_eq!(parse_u64("+"), None);
    assert_eq!(parse_u64("-1"), None);
    assert_eq!(parse_u64(""), None);
    assert_eq!(parse_u64("007"), Some(7));
}

#[test]
fn credentials_are_read_from_their_text() {
    let creds = claude_login_of_text(r#"{"claudeAiOauth":{"accessToken":"abc","expiresAt":5000}}"#).unwrap();
    assert_eq!(claude_token(&creds, 4).unwrap(), "abc");
    assert!(claude_login_of_text(r#"{"other":{}}"#).is_none());
    assert!(claude_login_of_text("not json").is_none());
    assert!(claude_login_of_text("").is_none());
}

#[test]
fn copilot_tokens_from_file_texts() {
    let texts = vec![
        r#"{"github.com:Iv1":{"oauth_token":"one"}}"#.to_string(),
        "{broken".to_string(),
        r#"{"github.com":{"oauth_token":"two"}}"#.to_string(),
    ];
    assert_eq!(copilot_tokens_of_texts(&texts), vec!["one".to_string(), "two".to_string()]);
    assert!(copilot_tokens_of_texts(&Vec::new()).is_empty());
}

#[test]
fn cursor_cookie_from_session_token() {
    assert_eq!(
        cursor_session_cookie("x.eyJzdWIiOiJhdXRoMHx1c2VyXzEifQ.sig").unwrap(),
        "WorkosCursorSessionToken=user_1%3A%3Ax.eyJzdWIiOiJhdXRoMHx1c2VyXzEifQ.sig"
    );
    assert!(matches!(cursor_session_cookie("no-dots"), Err(NetErr::NotSignedIn)));
    assert!(matches!(cursor_session_cookie("x.bm90IGpzb24.y"), Err(NetErr::NotSignedIn)));
    assert!(matches!(cursor_session_cookie("x.eyJ4IjoxfQ.y"), Err(NetErr::NotSignedIn)));
}

#[test]
fn reply_bodies_are_json_or_unusable() {
    match reply_json(r#"{"a":[1,-2,1.5,"s",true,null]}"#) {
        Ok(Json::Object(m)) => {
            assert_eq!(m.len(), 1);
            assert_eq!(m[0].0, "a");
            match &m[0].1 {
                Json::Array(a) => {
                    assert!(matches!(a[0], Json::Number(JsonNumber::PosInt(1))));
                    assert!(matches!(a[1], Json::Number(JsonNumber::NegInt(-2))));
                    assert!(matches!(a[2], Json::Number(JsonNumber::Float(b)) if b == 1.5f64.to_bits()));
                    assert!(matches!(&a[3], Json::String(x) if x == "s"));
                    assert!(matches!(a[4], Json::Bool(true)));
                    assert!(matches!(a[5], Json::Null));
                }
                other => panic!("{:?}", other),
            }
        }
        other => panic!("{:?}", other),
    }
    assert!(matches!(reply_json("<html>"), Err(NetErr::Unavailable("bad response"))));
    assert!(matches!(reply_json("{} trailing"), Err(NetErr::Unavailable("bad response"))));
}
