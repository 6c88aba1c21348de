//! What an HTTP status of an online usage service means for its row.
use vstd::prelude::*;
use vstd::string::StringSliceAdditionalSpecFns;
use vstd::utf8::encode_utf8;
use crate::timestamp::{all_digits, decimal_value, is_digit};
use crate::settings::{trimmed, trim_str};
use crate::poll::NetErr;
use crate::json::{json_document, parse_json, Json};

verus! {

/// What `u64::from_str` gives for the bytes `d`: an optional `+`, then at
/// least one decimal digit and nothing else, the value fitting in a `u64`.
pub open spec fn u64_field(d: Seq<u8>) -> Option<u64> {
    let body = if d.len() > 0 && d[0] == 43 {
        d.drop_first()
    } else {
        d
    };
    if body.len() > 0 && all_digits(body) && decimal_value(body) <= u64::MAX {
        Some(decimal_value(body) as u64)
    } else {
        None
    }
}

/// The seconds of a `Retry-After` header: its trimmed text read as a `u64`.
pub open spec fn retry_after_secs(h: Option<Seq<char>>) -> Option<u64> {
    match h {
        Some(t) => u64_field(encode_utf8(trimmed(t))),
        None => None,
    }
}

proof fn lemma_decimal_monotone(d: Seq<u8>, i: int)
    requires
        0 <= i <= d.len(),
        all_digits(d),
    ensures
        decimal_value(d.take(i)) <= decimal_value(d),
    decreases d.len() - i,
{
    if i < d.len() {
        lemma_decimal_monotone(d, i + 1);
        assert(d.take(i + 1).drop_last() =~= d.take(i));
        assert(is_digit(d[i]));
        assert(decimal_value(d.take(i)) >= 0) by {
            lemma_decimal_nonneg(d.take(i));
        }
    } else {
        assert(d.take(i) =~= d);
    }
}

proof fn lemma_decimal_nonneg(d: Seq<u8>)
    requires
        all_digits(d),
    ensures
        decimal_value(d) >= 0,
    decreases d.len(),
{
    if d.len() > 0 {
        assert(all_digits(d.drop_last()));
        lemma_decimal_nonneg(d.drop_last());
        assert(is_digit(d[d.len() - 1]));
    }
}

/// Reads `s` as `u64::from_str` does.
pub fn parse_u64(s: &str) -> (r: Option<u64>)
    ensures
        r == u64_field(s.spec_bytes()),
{
    let d = s.as_bytes();
    let start: usize = if d.len() > 0 && d[0] == 43 {
        1
    } else {
        0
    };
    let ghost body = if d@.len() > 0 && d@[0] == 43 {
        d@.drop_first()
    } else {
        d@
    };
    assert(body =~= d@.subrange(start as int, d@.len() as int));
    if start == d.len() {
        return None;
    }
    let mut acc: u64 = 0;
    let mut i = start;
    assert(d@.subrange(start as int, start as int) =~= Seq::<u8>::empty());
    while i < d.len()
        invariant
            start <= i <= d.len(),
            d@ == s.spec_bytes(),
            body == d@.subrange(start as int, d@.len() as int),
            body == (if d@.len() > 0 && d@[0] == 43 {
                d@.drop_first()
            } else {
                d@
            }),
            body.len() > 0,
            all_digits(d@.subrange(start as int, i as int)),
            acc as int == decimal_value(d@.subrange(start as int, i as int)),
        decreases d.len() - i,
    {
        let c = d[i];
        let ghost sub = d@.subrange(start as int, i + 1);
        assert(sub.drop_last() =~= d@.subrange(start as int, i as int));
        if c < 48 || c > 57 {
            assert(body[i - start] == c);
            assert(!is_digit(body[i - start]));
            return None;
        }
        assert(all_digits(sub)) by {
            assert forall|k: int| 0 <= k < sub.len() implies is_digit(#[trigger] sub[k]) by {
                if k < sub.len() - 1 {
                    assert(sub[k] == d@.subrange(start as int, i as int)[k]);
                }
            }
        }
        let digit = (c - 48) as u64;
        if acc > (u64::MAX - digit) / 10 {
            proof {
                assert(acc * 10 + digit > u64::MAX) by (nonlinear_arith)
                    requires
                        acc > (u64::MAX - digit) / 10,
                        digit <= 9,
                ;
                if all_digits(body) {
                    assert(sub =~= body.take(i + 1 - start));
                    lemma_decimal_monotone(body, i + 1 - start);
                }
            }
            return None;
        }
        assert(acc * 10 + digit <= u64::MAX) by (nonlinear_arith)
            requires
                acc <= (u64::MAX - digit) / 10,
                digit <= 9,
        ;
        acc = acc * 10 + digit;
        i = i + 1;
    }
    Some(acc)
}

/// The outcome of an HTTP reply with status `code` and the given
/// `Retry-After` header: `None` (go on reading the body) for 200; a rate
/// limit for 429; an expired login for 401 and 403; the service unavailable
/// otherwise.
pub open spec fn status_outcome(code: u16, retry_after: Option<Seq<char>>, r: Option<NetErr>) -> bool {
    match r {
        None => code == 200,
        Some(NetErr::RateLimited(secs)) => code == 429 && secs == retry_after_secs(retry_after),
        Some(NetErr::Expired) => code == 401 || code == 403,
        Some(NetErr::Unavailable(msg)) => code != 200 && code != 429 && code != 401 && code
            != 403 && msg@ == "unavailable"@,
        Some(NetErr::NotSignedIn) => false,
    }
}

/// What an HTTP reply's status says, before its body is read.
pub fn response_error(code: u16, retry_after: Option<&str>) -> (r: Option<NetErr>)
    ensures
        status_outcome(
            code,
            match retry_after {
                Some(t) => Some(t@),
                None => None,
            },
            r,
        ),
{
    if code == 200 {
        None
    } else if code == 429 {
        let secs = match retry_after {
            Some(t) => parse_u64(trim_str(t)),
            None => None,
        };
        Some(NetErr::RateLimited(secs))
    } else if code == 401 || code == 403 {
        Some(NetErr::Expired)
    } else {
        Some(NetErr::Unavailable("unavailable"))
    }
}

/// The JSON document of a successful reply's body; an unusable reply when the
/// body is not JSON.
pub fn reply_json(body: &str) -> (r: Result<Json, NetErr>)
    ensures
        r == match json_document(body.spec_bytes()) {
            Some(j) => Ok::<Json, NetErr>(j),
            None => Err(NetErr::Unavailable("bad response")),
        },
{
    match parse_json(body.as_bytes()) {
        Some(j) => Ok(j),
        None => Err(NetErr::Unavailable("bad response")),
    }
}

} // verus!
