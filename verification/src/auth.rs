//! The logins of the online services: which token to send, how, and what to
//! do with each reply while trying the tokens one after the other.
use vstd::prelude::*;
use vstd::utf8::encode_utf8;
use vstd::string::{StringSliceAdditionalSpecFns, StrSliceExecFns};
use crate::json::{json_document, parse_json, Json, json_get, json_get_opt, json_str, json_i64, opt_ref, get_opt};
use crate::timestamp::quot;
use crate::poll::NetErr;
use crate::usage::{Row, RowView, copilot_row, parse_copilot};
use crate::base64url::{base64_decoded, decode_base64_bytes};

verus! {

/// Stored Anthropic credentials, kept only if they hold an OAuth login.
pub fn claude_login(creds: Json) -> (r: Option<Json>)
    ensures
        r is Some <==> json_get(creds, "claudeAiOauth"@) is Some,
        r matches Some(v) ==> v == creds,
{
    if creds.get("claudeAiOauth").is_some() {
        Some(creds)
    } else {
        None
    }
}

/// The Anthropic access token of the credentials `creds` at UNIX time `now`:
/// missing without `claudeAiOauth.accessToken`, expired when
/// `claudeAiOauth.expiresAt` (milliseconds) lies before `now`.
pub open spec fn claude_access(creds: Json, now: int) -> Result<Seq<char>, NetErr> {
    let oauth = json_get(creds, "claudeAiOauth"@);
    match json_str(json_get_opt(oauth, "accessToken"@)) {
        None => Err(NetErr::NotSignedIn),
        Some(t) => match json_i64(json_get_opt(oauth, "expiresAt"@)) {
            Some(ms) => if quot(ms as int, 1000) < now {
                Err(NetErr::Expired)
            } else {
                Ok(t)
            },
            None => Ok(t),
        },
    }
}

/// The access token to send to Anthropic's usage endpoint.
pub fn claude_token(creds: &Json, now: i64) -> (r: Result<&str, NetErr>)
    ensures
        match r {
            Ok(t) => claude_access(*creds, now as int) == Ok::<Seq<char>, NetErr>(t@),
            Err(e) => claude_access(*creds, now as int) == Err::<Seq<char>, NetErr>(e),
        },
{
    let oauth = creds.get("claudeAiOauth");
    let token = match get_opt(oauth, "accessToken") {
        Some(t) => match t.as_str() {
            Some(t) => t,
            None => return Err(NetErr::NotSignedIn),
        },
        None => return Err(NetErr::NotSignedIn),
    };
    let expires = match get_opt(oauth, "expiresAt") {
        Some(x) => x.as_i64(),
        None => None,
    };
    match expires {
        Some(ms) => {
            let secs: i64 = match ms.checked_div(1000) {
                Some(q) => q,
                None => 0,
            };
            assert(secs == quot(ms as int, 1000));
            if secs < now {
                Err(NetErr::Expired)
            } else {
                Ok(token)
            }
        },
        None => Ok(token),
    }
}

/// The `Authorization` header that carries `token` to Anthropic.
pub fn bearer(token: &str) -> (r: String)
    ensures
        r@ == "Bearer "@ + token@,
{
    let mut h = String::from_str("Bearer ");
    h.append(token);
    h
}

/// The `Authorization` header that carries `token` to GitHub.
pub fn github_token_header(token: &str) -> (r: String)
    ensures
        r@ == "token "@ + token@,
{
    let mut h = String::from_str("token ");
    h.append(token);
    h
}

/// The `oauth_token`s of the members of a Copilot login file, in order.
pub open spec fn member_tokens(m: Seq<(String, Json)>) -> Seq<Seq<char>>
    decreases m.len(),
{
    if m.len() == 0 {
        Seq::empty()
    } else {
        member_tokens(m.drop_last()) + match json_str(json_get(m.last().1, "oauth_token"@)) {
            Some(t) => seq![t],
            None => Seq::empty(),
        }
    }
}

/// The Copilot tokens of the login files `files` (`apps.json`, `hosts.json`),
/// in order; a file that is not an object holds none.
pub open spec fn login_tokens(files: Seq<Json>) -> Seq<Seq<char>>
    decreases files.len(),
{
    if files.len() == 0 {
        Seq::empty()
    } else {
        login_tokens(files.drop_last()) + match files.last() {
            Json::Object(m) => member_tokens(m@),
            _ => Seq::empty(),
        }
    }
}

/// The Copilot OAuth tokens found in the login files.
pub fn copilot_tokens(files: &Vec<Json>) -> (r: Vec<String>)
    ensures
        r@.map_values(|s: String| s@) == login_tokens(files@),
{
    let mut out: Vec<String> = Vec::new();
    let mut i: usize = 0;
    assert(files@.take(0) =~= Seq::<Json>::empty());
    while i < files.len()
        invariant
            i <= files.len(),
            out@.map_values(|s: String| s@) == login_tokens(files@.take(i as int)),
        decreases files.len() - i,
    {
        let ghost before = out@.map_values(|s: String| s@);
        assert(files@.take(i + 1).drop_last() =~= files@.take(i as int));
        assert(files@.take(i + 1).last() == files@[i as int]);
        match &files[i] {
            Json::Object(m) => {
                let mut j: usize = 0;
                assert(m@.take(0) =~= Seq::<(String, Json)>::empty());
                assert(before + member_tokens(m@.take(0)) =~= before);
                while j < m.len()
                    invariant
                        j <= m.len(),
                        out@.map_values(|s: String| s@) == before + member_tokens(m@.take(j as int)),
                    decreases m.len() - j,
                {
                    assert(m@.take(j + 1).drop_last() =~= m@.take(j as int));
                    assert(m@.take(j + 1).last() == m@[j as int]);
                    let t = match m[j].1.get("oauth_token") {
                        Some(v) => v.as_str(),
                        None => None,
                    };
                    match t {
                        Some(t) => {
                            let ghost prev = out@;
                            let st = String::from_str(t);
                            out.push(st);
                            assert(json_str(json_get(m@[j as int].1, "oauth_token"@)) == Some(t@));
                            assert(member_tokens(m@.take(j + 1)) == member_tokens(m@.take(j as int)) + seq![t@]);
                            assert(out@.map_values(|s: String| s@) =~= prev.map_values(|s: String| s@).push(t@));
                            assert(out@.map_values(|s: String| s@) =~= before + member_tokens(m@.take(j + 1)));
                        },
                        None => {
                            assert(before + member_tokens(m@.take(j + 1)) =~= before + member_tokens(m@.take(j as int)));
                        },
                    }
                    j = j + 1;
                }
                assert(m@.take(m.len() as int) =~= m@);
            },
            _ => {
                assert(before + Seq::<Seq<char>>::empty() =~= before);
            },
        }
        i = i + 1;
    }
    assert(files@.take(files.len() as int) =~= files@);
    out
}

/// What to do after one Copilot token was tried.
#[derive(Debug)]
pub enum CopilotStep {
    /// Stop with this result.
    Done(Result<Row, NetErr>),
    /// Try the next token; this error stands if none is left.
    Next(NetErr),
}

/// What one Copilot reply decides when `pending` is the error so far: a user
/// report ends the search with its row (or, unreadable, an unavailable
/// service); an expired token is skipped; any other error becomes pending.
pub open spec fn copilot_decision(pending: NetErr, reply: Result<Json, NetErr>) -> (Option<Result<RowView, NetErr>>, NetErr) {
    match reply {
        Ok(v) => (
            Some(
                match copilot_row(v) {
                    Some(r) => Ok(r),
                    None => Err(NetErr::Unavailable("bad response")),
                },
            ),
            pending,
        ),
        Err(NetErr::Expired) => (None, pending),
        Err(e) => (None, e),
    }
}

/// The result of trying Copilot tokens whose replies are `replies` in turn,
/// starting with `pending` as the error to give if no reply ends the search.
pub open spec fn copilot_result(pending: NetErr, replies: Seq<Result<Json, NetErr>>) -> Result<RowView, NetErr>
    decreases replies.len(),
{
    if replies.len() == 0 {
        Err(pending)
    } else {
        let d = copilot_decision(pending, replies[0]);
        match d.0 {
            Some(r) => r,
            None => copilot_result(d.1, replies.drop_first()),
        }
    }
}

/// A reply seen as a value.
pub open spec fn reply_view(reply: Result<&Json, NetErr>) -> Result<Json, NetErr> {
    match reply {
        Ok(v) => Ok(*v),
        Err(e) => Err(e),
    }
}

/// Decides after the reply for one Copilot token.
pub fn copilot_step(pending: NetErr, reply: Result<&Json, NetErr>) -> (r: CopilotStep)
    ensures
        match r {
            CopilotStep::Done(x) => copilot_decision(pending, reply_view(reply)).0 == Some(
                match x {
                    Ok(row) => Ok::<RowView, NetErr>(row@),
                    Err(e) => Err::<RowView, NetErr>(e),
                },
            ),
            CopilotStep::Next(p) => copilot_decision(pending, reply_view(reply)).0 is None
                && copilot_decision(pending, reply_view(reply)).1 == p,
        },
{
    match reply {
        Ok(v) => match parse_copilot(v) {
            Some(row) => CopilotStep::Done(Ok(row)),
            None => CopilotStep::Done(Err(NetErr::Unavailable("bad response"))),
        },
        Err(NetErr::Expired) => CopilotStep::Next(pending),
        Err(e) => CopilotStep::Next(e),
    }
}

/// With every token expired (or none at all), the login is reported expired.
pub proof fn lemma_all_expired(replies: Seq<Result<Json, NetErr>>)
    requires
        forall|k: int| 0 <= k < replies.len() ==> #[trigger] replies[k] matches Err(NetErr::Expired),
    ensures
        copilot_result(NetErr::Expired, replies) matches Err(NetErr::Expired),
    decreases replies.len(),
{
    if replies.len() > 0 {
        assert(replies[0] matches Err(NetErr::Expired));
        assert forall|k: int| 0 <= k < replies.drop_first().len() implies #[trigger] replies.drop_first()[k] matches Err(NetErr::Expired) by {
            assert(replies.drop_first()[k] == replies[k + 1]);
        }
        lemma_all_expired(replies.drop_first());
    }
}

/// Where the `.` after byte `i` is, or the end of `b`.
pub open spec fn next_dot(b: Seq<u8>, i: int) -> int
    decreases b.len() - i,
{
    if i >= b.len() {
        b.len() as int
    } else if b[i] == 46 {
        i
    } else {
        next_dot(b, i + 1)
    }
}

/// The second `.`-separated segment of a JWT, if it has one.
pub open spec fn jwt_segment(b: Seq<u8>) -> Option<Seq<u8>> {
    let d = next_dot(b, 0);
    if d >= b.len() {
        None
    } else {
        Some(b.subrange(d + 1, next_dot(b, d + 1)))
    }
}

/// `next_dot` stays within `b` and finds the first `.` from `i` on.
pub proof fn lemma_next_dot(b: Seq<u8>, i: int)
    requires
        0 <= i <= b.len(),
    ensures
        i <= next_dot(b, i) <= b.len(),
        next_dot(b, i) < b.len() ==> b[next_dot(b, i)] == 46,
    decreases b.len() - i,
{
    if i < b.len() && b[i] != 46 {
        lemma_next_dot(b, i + 1);
    }
}

fn find_dot(b: &[u8], from: usize) -> (r: usize)
    requires
        from <= b.len(),
    ensures
        r == next_dot(b@, from as int),
{
    let mut i = from;
    while i < b.len() && b[i] != 46
        invariant
            from <= i <= b.len(),
            next_dot(b@, from as int) == next_dot(b@, i as int),
        decreases b.len() - i,
    {
        i = i + 1;
    }
    i
}

/// The decoded claims of a Cursor session token: its second segment,
/// Base64-decoded; `None` without a second segment or with one that is not Base64.
pub fn jwt_payload(token: &str) -> (r: Option<Vec<u8>>)
    ensures
        match jwt_segment(token.spec_bytes()) {
            Some(seg) => match base64_decoded(seg) {
                Some(o) => r matches Some(out) && out@ == o,
                None => r is None,
            },
            None => r is None,
        },
{
    let b = token.as_bytes();
    proof {
        lemma_next_dot(b@, 0);
    }
    let d = find_dot(b, 0);
    if d >= b.len() {
        return None;
    }
    proof {
        lemma_next_dot(b@, d + 1);
    }
    let e = find_dot(b, d + 1);
    let seg = &b[d + 1..e];
    decode_base64_bytes(seg)
}

/// The text after the last `|` of `s`, or all of `s` without one
/// (`s.rsplit('|').next()`).
pub open spec fn after_last_bar(s: Seq<char>) -> Seq<char>
    decreases s.len(),
{
    if s.len() == 0 {
        s
    } else if s.last() == '|' {
        Seq::empty()
    } else {
        after_last_bar(s.drop_last()).push(s.last())
    }
}

proof fn lemma_after_last_bar(s: Seq<char>, k: int)
    requires
        0 <= k <= s.len(),
        forall|q: int| k <= q < s.len() ==> s[q] != '|',
        k == 0 || s[k - 1] == '|',
    ensures
        after_last_bar(s) == s.subrange(k, s.len() as int),
    decreases s.len(),
{
    if s.len() > k {
        lemma_after_last_bar(s.drop_last(), k);
        assert(s.subrange(k, s.len() as int) =~= s.drop_last().subrange(k, s.len() - 1).push(s.last()));
    } else if k > 0 {
        assert(s.last() == '|');
        assert(s.subrange(k, s.len() as int) =~= Seq::<char>::empty());
    } else {
        assert(s.subrange(k, s.len() as int) =~= s);
    }
}

/// The cookie that signs in to Cursor's usage endpoint: the user of the
/// token's claims (the `sub` claim after its last `|`) and the token.
pub open spec fn cursor_cookie_text(token: Seq<char>, claims: Json) -> Option<Seq<char>> {
    match json_str(json_get(claims, "sub"@)) {
        Some(sub) => Some("WorkosCursorSessionToken="@ + after_last_bar(sub) + "%3A%3A"@ + token),
        None => None,
    }
}

/// The `Cookie` header for Cursor; not signed in without a `sub` claim.
pub fn cursor_cookie(token: &str, claims: &Json) -> (r: Result<String, NetErr>)
    ensures
        match cursor_cookie_text(token@, *claims) {
            Some(c) => r matches Ok(x) && x@ == c,
            None => r matches Err(NetErr::NotSignedIn),
        },
{
    let sub = match claims.get("sub") {
        Some(s) => match s.as_str() {
            Some(s) => s,
            None => return Err(NetErr::NotSignedIn),
        },
        None => return Err(NetErr::NotSignedIn),
    };
    let n = sub.unicode_len();
    let ghost v = sub@;
    let mut k = n;
    while k > 0 && sub.get_char(k - 1) != '|'
        invariant
            k <= n,
            n == v.len(),
            v == sub@,
            forall|q: int| k <= q < n ==> v[q] != '|',
        decreases k,
    {
        k = k - 1;
    }
    proof {
        lemma_after_last_bar(v, k as int);
    }
    let user = sub.substring_char(k, n);
    let mut c = String::from_str("WorkosCursorSessionToken=");
    c.append(user);
    c.append("%3A%3A");
    c.append(token);
    Ok(c)
}

/// The stored Anthropic credentials in the text of a credentials file (or
/// keychain entry): its JSON document, kept only if it holds an OAuth login.
pub fn claude_login_of_text(text: &str) -> (r: Option<Json>)
    ensures
        match json_document(text.spec_bytes()) {
            Some(j) => r == (if json_get(j, "claudeAiOauth"@) is Some {
                Some(j)
            } else {
                None
            }),
            None => r is None,
        },
{
    match parse_json(text.as_bytes()) {
        Some(j) => claude_login(j),
        None => None,
    }
}

/// The JSON documents among the texts of login files, in order; texts that
/// are not JSON are skipped.
pub open spec fn login_documents(texts: Seq<Seq<char>>) -> Seq<Json>
    decreases texts.len(),
{
    if texts.len() == 0 {
        Seq::empty()
    } else {
        login_documents(texts.drop_last()) + match json_document(encode_utf8(texts.last())) {
            Some(j) => seq![j],
            None => Seq::empty(),
        }
    }
}

/// The Copilot OAuth tokens in the texts of the login files that exist
/// (`apps.json`, then `hosts.json`).
pub fn copilot_tokens_of_texts(texts: &Vec<String>) -> (r: Vec<String>)
    ensures
        r@.map_values(|s: String| s@) == login_tokens(login_documents(texts@.map_values(|t: String| t@))),
{
    let ghost views = texts@.map_values(|t: String| t@);
    let mut files: Vec<Json> = Vec::new();
    let mut i: usize = 0;
    assert(views.take(0) =~= Seq::<Seq<char>>::empty());
    while i < texts.len()
        invariant
            i <= texts.len(),
            views == texts@.map_values(|t: String| t@),
            files@ == login_documents(views.take(i as int)),
        decreases texts.len() - i,
    {
        assert(views.take(i + 1).drop_last() =~= views.take(i as int));
        assert(views.take(i + 1).last() == texts@[i as int]@);
        match parse_json(texts[i].as_str().as_bytes()) {
            Some(j) => {
                files.push(j);
            },
            None => {},
        }
        proof {
            let add = match json_document(encode_utf8(texts@[i as int]@)) {
                Some(j) => seq![j],
                None => Seq::<Json>::empty(),
            };
            assert(files@ =~= login_documents(views.take(i as int)) + add);
        }
        i = i + 1;
    }
    assert(views.take(texts.len() as int) =~= views);
    copilot_tokens(&files)
}

/// The decoded claims of a session token, as `jwt_payload` gives them.
pub open spec fn jwt_claims_bytes(token: Seq<u8>) -> Option<Seq<u8>> {
    match jwt_segment(token) {
        Some(seg) => base64_decoded(seg),
        None => None,
    }
}

/// The `Cookie` header for Cursor from its session token: the token's claims
/// are decoded and read as JSON; not signed in where that fails or where they
/// have no `sub`.
pub fn cursor_session_cookie(token: &str) -> (r: Result<String, NetErr>)
    ensures
        match jwt_claims_bytes(token.spec_bytes()) {
            Some(p) => match json_document(p) {
                Some(claims) => match cursor_cookie_text(token@, claims) {
                    Some(c) => r matches Ok(x) && x@ == c,
                    None => r matches Err(NetErr::NotSignedIn),
                },
                None => r matches Err(NetErr::NotSignedIn),
            },
            None => r matches Err(NetErr::NotSignedIn),
        },
{
    let payload = match jwt_payload(token) {
        Some(p) => p,
        None => return Err(NetErr::NotSignedIn),
    };
    let claims = match parse_json(payload.as_slice()) {
        Some(c) => c,
        None => return Err(NetErr::NotSignedIn),
    };
    cursor_cookie(token, &claims)
}

} // verus!
