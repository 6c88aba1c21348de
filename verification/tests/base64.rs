use quotis::base64url::base64url;
use quotis::auth::jwt_payload;

#[test]
fn jwt_payload_decodes() {
    let bytes = base64url("eyJzdWIiOiJhdXRoMHx1c2VyXzEyMyJ9").unwrap();
    let v: serde_json::Value = serde_json::from_slice(&bytes).unwrap();
    assert_eq!(v["sub"], "auth0|user_123");
}

#[test]
fn padding_is_ignored_anywhere() {
    assert_eq!(base64url("aGVsbG8="), Some(b"hello".to_vec()));
    assert_eq!(base64url("aGVsbG8"), Some(b"hello".to_vec()));
    assert_eq!(base64url("aG=VsbG8=="), Some(b"hello".to_vec()));
}

#[test]
fn leftover_bits_are_dropped() {
    assert_eq!(base64url("aGVsbA"), Some(b"hell".to_vec()));
    assert_eq!(base64url("aGVsbAx"), Some(vec![104, 101, 108, 108, 12]));
    assert_eq!(base64url("a"), Some(Vec::new()));
    assert_eq!(base64url(""), Some(Vec::new()));
}

#[test]
fn both_alphabets_decode_alike() {
    assert_eq!(base64url("-_-_"), Some(vec![0xfb, 0xff, 0xbf]));
    assert_eq!(base64url("+/+/"), Some(vec![0xfb, 0xff, 0xbf]));
}

#[test]
fn other_bytes_are_refused() {
    assert_eq!(base64url("aGVs bG8"), None);
    assert_eq!(base64url("aGVs.bG8"), None);
    assert_eq!(base64url("é"), None);
}

#[test]
fn whole_groups_concatenate() {
    let a = base64url("aGVs").unwrap();
    let b = base64url("bG8=").unwrap();
    let ab = base64url("aGVsbG8=").unwrap();
    assert_eq!([a, b].concat(), ab);
}

#[test]
fn jwt_second_segment_is_decoded() {
    assert_eq!(jwt_payload("x.aGVsbG8.sig"), Some(b"hello".to_vec()));
    assert_eq!(jwt_payload("x.aGVsbG8"), Some(b"hello".to_vec()));
    assert_eq!(jwt_payload("no-dots"), None);
    assert_eq!(jwt_payload("x.!!.y"), None);
    assert_eq!(jwt_payload("x..y"), Some(Vec::new()));
}

fn encode(bytes: &[u8], url: bool) -> String {
    let table: &[u8] = if url {
        b"ABCDEFGHIJKLMNOPQRSTUVWXYZabcdefghijklmnopqrstuvwxyz0123456789-_"
    } else {
        b"ABCDEFGHIJKLMNOPQRSTUVWXYZabcdefghijklmnopqrstuvwxyz0123456789+/"
    };
    let mut out = String::new();
    for chunk in bytes.chunks(3) {
        let b = [chunk[0], *chunk.get(1).unwrap_or(&0), *chunk.get(2).unwrap_or(&0)];
        let n = ((b[0] as u32) << 16) | ((b[1] as u32) << 8) | b[2] as u32;
        for k in 0..4 {
            if k <= chunk.len() {
                out.push(table[((n >> (18 - 6 * k)) & 63) as usize] as char);
            } else {
                out.push('=');
            }
        }
    }
    out
}

#[test]
fn encoded_bytes_decode_back() {
    let inputs: Vec<Vec<u8>> = vec![
        Vec::new(),
        vec![0],
        vec![255, 254],
        b"hello".to_vec(),
        (0u8..=255).collect(),
        vec![0xfb, 0xff, 0xbf, 0x00, 0x10],
    ];
    for b in inputs {
        let std = encode(&b, false);
        let url = encode(&b, true);
        assert_eq!(base64url(&std), Some(b.clone()));
        assert_eq!(base64url(&url), Some(b.clone()));
        assert_eq!(base64url(url.trim_end_matches('=')), Some(b.clone()));
    }
}
