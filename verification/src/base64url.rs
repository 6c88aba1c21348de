//! Lenient Base64 decoding of JWT segments: both the URL-safe (`-`, `_`) and
//! the standard (`+`, `/`) alphabet, `=` ignored wherever it stands, and
//! trailing bits that do not make a whole byte dropped.
use vstd::prelude::*;
use vstd::string::StringSliceAdditionalSpecFns;

verus! {

/// The byte `=`.
pub open spec fn is_pad(c: u8) -> bool {
    c == 61
}

/// The 6-bit value of a Base64 symbol of either alphabet.
pub open spec fn sextet_value(c: u8) -> Option<u8> {
    if 65 <= c <= 90 {
        Some((c - 65) as u8)
    } else if 97 <= c <= 122 {
        Some((c - 97 + 26) as u8)
    } else if 48 <= c <= 57 {
        Some((c - 48 + 52) as u8)
    } else if c == 45 || c == 43 {
        Some(62)
    } else if c == 95 || c == 47 {
        Some(63)
    } else {
        None
    }
}

/// The 6-bit values of the symbols of `s`, padding left out;
/// `None` if `s` holds a byte that is neither a symbol nor `=`.
pub open spec fn sextets_of(s: Seq<u8>) -> Option<Seq<u8>>
    decreases s.len(),
{
    if s.len() == 0 {
        Some(Seq::empty())
    } else {
        match sextets_of(s.drop_last()) {
            None => None,
            Some(v) => if is_pad(s.last()) {
                Some(v)
            } else {
                match sextet_value(s.last()) {
                    Some(x) => Some(v.push(x)),
                    None => None,
                }
            },
        }
    }
}

/// Byte `k` of the bit string made of the 6-bit values `v`, most significant bit first:
/// every 4 values make 3 bytes.
pub open spec fn decoded_byte(v: Seq<u8>, k: int) -> u8 {
    let g = k / 3;
    let r = k % 3;
    if r == 0 {
        (v[4 * g] * 4 + v[4 * g + 1] / 16) as u8
    } else if r == 1 {
        ((v[4 * g + 1] % 16) * 16 + v[4 * g + 2] / 4) as u8
    } else {
        ((v[4 * g + 2] % 4) * 64 + v[4 * g + 3]) as u8
    }
}

/// The whole bytes that the 6-bit values `v` hold: `6 * |v| / 8` of them.
pub open spec fn decode_sextets(v: Seq<u8>) -> Seq<u8> {
    Seq::new((v.len() * 3 / 4) as nat, |k: int| decoded_byte(v, k))
}

/// What `base64url` gives for the bytes `s`.
pub open spec fn base64_decoded(s: Seq<u8>) -> Option<Seq<u8>> {
    match sextets_of(s) {
        Some(v) => Some(decode_sextets(v)),
        None => None,
    }
}

/// How many bits are pending after `n` values.
pub open spec fn pending_bits(n: nat) -> u32 {
    if n % 4 == 0 {
        0
    } else if n % 4 == 1 {
        6
    } else if n % 4 == 2 {
        4
    } else {
        2
    }
}

proof fn lemma_pending_step(acc: u32, v: u32, p: u32)
    requires
        v < 64,
    ensures
        (((acc << 6u32) | v) & 63u32) == v,
        (acc & 63u32) == p ==> (((acc << 6u32) | v) >> 4u32) as u8 == (p * 4 + v / 16) as u8,
        (((acc << 6u32) | v) & 15u32) == v % 16,
        (acc & 15u32) == p ==> (((acc << 6u32) | v) >> 2u32) as u8 == (p * 16 + v / 4) as u8,
        (((acc << 6u32) | v) & 3u32) == v % 4,
        (acc & 3u32) == p ==> ((acc << 6u32) | v) as u8 == (p * 64 + v) as u8,
{
    assert(v < 64 ==> (((acc << 6u32) | v) & 63u32) == v) by (bit_vector);
    assert(v < 64 && (acc & 63u32) == p ==> (((acc << 6u32) | v) >> 4u32) as u8 == (p * 4 + v / 16) as u8) by (bit_vector);
    assert(v < 64 ==> (((acc << 6u32) | v) & 15u32) == v % 16) by (bit_vector);
    assert(v < 64 && (acc & 15u32) == p ==> (((acc << 6u32) | v) >> 2u32) as u8 == (p * 16 + v / 4) as u8) by (bit_vector);
    assert(v < 64 ==> (((acc << 6u32) | v) & 3u32) == v % 4) by (bit_vector);
    assert(v < 64 && (acc & 3u32) == p ==> ((acc << 6u32) | v) as u8 == (p * 64 + v) as u8) by (bit_vector);
}

/// The bits of the last value that no byte has taken yet.
pub open spec fn pending_value(v: Seq<u8>) -> int {
    let n = v.len();
    if n % 4 == 1 {
        v[n - 1] as int
    } else if n % 4 == 2 {
        (v[n - 1] % 16) as int
    } else if n % 4 == 3 {
        (v[n - 1] % 4) as int
    } else {
        0
    }
}

proof fn lemma_sextets_none_extends(s: Seq<u8>, i: int)
    requires
        0 <= i <= s.len(),
        sextets_of(s.take(i)) is None,
    ensures
        sextets_of(s) is None,
    decreases s.len() - i,
{
    if i < s.len() {
        assert(s.take(i + 1).drop_last() =~= s.take(i));
        lemma_sextets_none_extends(s, i + 1);
    } else {
        assert(s.take(i) =~= s);
    }
}

/// `-` and `_` of the URL-safe alphabet replaced by `+` and `/` of the standard one.
pub open spec fn to_standard_alphabet(c: u8) -> u8 {
    if c == 45 {
        43
    } else if c == 95 {
        47
    } else {
        c
    }
}

proof fn lemma_padding_sextets(s: Seq<u8>)
    ensures
        sextets_of(s) == sextets_of(s.filter(|c: u8| !is_pad(c))),
    decreases s.len(),
{
    reveal(Seq::filter);
    if s.len() > 0 {
        lemma_padding_sextets(s.drop_last());
        let f = s.filter(|c: u8| !is_pad(c));
        let f0 = s.drop_last().filter(|c: u8| !is_pad(c));
        if is_pad(s.last()) {
            assert(f =~= f0);
        } else {
            assert(f =~= f0.push(s.last()));
            assert(f.drop_last() =~= f0);
            assert(f.last() == s.last());
        }
    }
}

/// Padding is ignored wherever it stands: decoding `s` gives what decoding `s`
/// with every `=` taken out gives.
pub proof fn lemma_padding_ignored(s: Seq<u8>)
    ensures
        base64_decoded(s) == base64_decoded(s.filter(|c: u8| !is_pad(c))),
{
    lemma_padding_sextets(s);
}

proof fn lemma_alphabet_sextets(s: Seq<u8>)
    ensures
        sextets_of(s.map_values(|c: u8| to_standard_alphabet(c))) == sextets_of(s),
    decreases s.len(),
{
    let t = s.map_values(|c: u8| to_standard_alphabet(c));
    if s.len() > 0 {
        lemma_alphabet_sextets(s.drop_last());
        assert(t.drop_last() =~= s.drop_last().map_values(|c: u8| to_standard_alphabet(c)));
        assert(t.last() == to_standard_alphabet(s.last()));
    } else {
        assert(t.len() == 0);
    }
}

/// The URL-safe and the standard alphabet decode alike.
pub proof fn lemma_alphabets_agree(s: Seq<u8>)
    ensures
        base64_decoded(s.map_values(|c: u8| to_standard_alphabet(c))) == base64_decoded(s),
{
    lemma_alphabet_sextets(s);
}

proof fn lemma_sextets_concat(a: Seq<u8>, b: Seq<u8>)
    requires
        sextets_of(a) is Some,
        sextets_of(b) is Some,
    ensures
        sextets_of(a + b) == Some(sextets_of(a)->0 + sextets_of(b)->0),
    decreases b.len(),
{
    if b.len() == 0 {
        assert(a + b =~= a);
        assert(sextets_of(a)->0 + sextets_of(b)->0 =~= sextets_of(a)->0);
    } else {
        lemma_sextets_concat(a, b.drop_last());
        assert((a + b).drop_last() =~= a + b.drop_last());
        assert((a + b).last() == b.last());
        let va = sextets_of(a)->0;
        let vb0 = sextets_of(b.drop_last())->0;
        if !is_pad(b.last()) {
            assert(va + vb0.push(sextet_value(b.last())->0) =~= (va + vb0).push(
                sextet_value(b.last())->0,
            ));
        }
    }
}

/// Whole groups of four symbols decode on their own: where the first part holds a
/// multiple of four symbols, decoding the concatenation gives the two decodings
/// one after the other.
pub proof fn lemma_whole_groups_concat(a: Seq<u8>, b: Seq<u8>)
    requires
        sextets_of(a) matches Some(va) && va.len() % 4 == 0,
        sextets_of(b) is Some,
    ensures
        base64_decoded(a + b) == Some(base64_decoded(a)->0 + base64_decoded(b)->0),
{
    lemma_sextets_concat(a, b);
    let va = sextets_of(a)->0;
    let vb = sextets_of(b)->0;
    let v = va + vb;
    let g = (va.len() / 4) as int;
    let da = decode_sextets(va);
    let db = decode_sextets(vb);
    let d = decode_sextets(v);
    assert(da.len() == 3 * g);
    assert(d.len() == da.len() + db.len());
    assert forall|k: int| 0 <= k < d.len() implies #[trigger] d[k] == (da + db)[k] by {
        if k < 3 * g {
            assert(4 * (k / 3) + 3 < va.len());
            assert(d[k] == decoded_byte(v, k));
            assert(da[k] == decoded_byte(va, k));
        } else {
            let j = k - 3 * g;
            assert(k / 3 == j / 3 + g);
            assert(k % 3 == j % 3);
            assert(db[j] == decoded_byte(vb, j));
            assert(4 * (j / 3) + (j % 3) + 1 < vb.len());
            assert(v[4 * (k / 3)] == vb[4 * (j / 3)]);
            assert(v[4 * (k / 3) + 1] == vb[4 * (j / 3) + 1]);
            if j % 3 > 0 {
                assert(v[4 * (k / 3) + 2] == vb[4 * (j / 3) + 2]);
            }
            if j % 3 == 2 {
                assert(v[4 * (k / 3) + 3] == vb[4 * (j / 3) + 3]);
            }
        }
    }
    assert(d =~= da + db);
}

/// The symbol of the standard alphabet for the 6-bit value `x`.
pub open spec fn symbol(x: int) -> u8 {
    if x < 26 {
        (65 + x) as u8
    } else if x < 52 {
        (97 + x - 26) as u8
    } else if x < 62 {
        (48 + x - 52) as u8
    } else if x == 62 {
        43
    } else {
        47
    }
}

/// The four symbols that encode one to three bytes, `=` standing for the
/// values that a short group lacks.
pub open spec fn encode_group(b: Seq<u8>) -> Seq<u8> {
    let v1 = b[0] as int;
    let v2 = if b.len() > 1 { b[1] as int } else { 0 };
    let v3 = if b.len() > 2 { b[2] as int } else { 0 };
    seq![
        symbol(v1 / 4),
        symbol((v1 % 4) * 16 + v2 / 16),
        if b.len() > 1 { symbol((v2 % 16) * 4 + v3 / 64) } else { 61 },
        if b.len() > 2 { symbol(v3 % 64) } else { 61 },
    ]
}

/// The standard Base64 encoding (RFC 4648) of `b`, with padding.
pub open spec fn base64_encode(b: Seq<u8>) -> Seq<u8>
    decreases b.len(),
{
    if b.len() == 0 {
        Seq::empty()
    } else if b.len() <= 3 {
        encode_group(b)
    } else {
        encode_group(b.take(3)) + base64_encode(b.skip(3))
    }
}

/// `+` and `/` of the standard alphabet replaced by `-` and `_` of the URL-safe one.
pub open spec fn to_url_alphabet(c: u8) -> u8 {
    if c == 43 {
        45
    } else if c == 47 {
        95
    } else {
        c
    }
}

proof fn lemma_symbol(x: int)
    requires
        0 <= x < 64,
    ensures
        sextet_value(symbol(x)) == Some(x as u8),
        !is_pad(symbol(x)),
        symbol(x) != 45 && symbol(x) != 95,
{
}

proof fn lemma_group(b: Seq<u8>)
    requires
        1 <= b.len() <= 3,
    ensures
        sextets_of(encode_group(b)) is Some,
        b.len() == 3 ==> sextets_of(encode_group(b))->0.len() == 4,
        base64_decoded(encode_group(b)) == Some(b),
        forall|k: int| 0 <= k < 4 ==> #[trigger] encode_group(b)[k] != 45 && encode_group(b)[k] != 95,
{
    let v1 = b[0] as int;
    let v2 = if b.len() > 1 { b[1] as int } else { 0 };
    let v3 = if b.len() > 2 { b[2] as int } else { 0 };
    let s1 = v1 / 4;
    let s2 = (v1 % 4) * 16 + v2 / 16;
    let s3 = (v2 % 16) * 4 + v3 / 64;
    let s4 = v3 % 64;
    lemma_symbol(s1);
    lemma_symbol(s2);
    lemma_symbol(s3);
    lemma_symbol(s4);
    let e = encode_group(b);
    reveal_with_fuel(sextets_of, 5);
    assert(e.drop_last().drop_last().drop_last().drop_last() =~= Seq::<u8>::empty());
    assert(e.drop_last().drop_last().drop_last() =~= seq![e[0]]);
    assert(e.drop_last().drop_last() =~= seq![e[0], e[1]]);
    assert(e.drop_last() =~= seq![e[0], e[1], e[2]]);
    assert(seq![e[0]].drop_last() =~= Seq::<u8>::empty());
    assert(seq![e[0], e[1]].drop_last() =~= seq![e[0]]);
    assert(seq![e[0], e[1], e[2]].drop_last() =~= seq![e[0], e[1]]);
    let v = sextets_of(e)->0;
    if b.len() == 3 {
        assert(v =~= seq![s1 as u8, s2 as u8, s3 as u8, s4 as u8]);
    } else if b.len() == 2 {
        assert(v =~= seq![s1 as u8, s2 as u8, s3 as u8]);
    } else {
        assert(v =~= seq![s1 as u8, s2 as u8]);
    }
    let d = decode_sextets(v);
    assert(d[0] == b[0]);
    if b.len() > 1 {
        assert(d[1] == b[1]);
    }
    if b.len() > 2 {
        assert(d[2] == b[2]);
    }
    assert(d =~= b);
}

proof fn lemma_encode(b: Seq<u8>)
    ensures
        sextets_of(base64_encode(b)) is Some,
        base64_decoded(base64_encode(b)) == Some(b),
        forall|k: int| 0 <= k < base64_encode(b).len() ==> #[trigger] base64_encode(b)[k] != 45
            && base64_encode(b)[k] != 95,
    decreases b.len(),
{
    if b.len() == 0 {
        assert(decode_sextets(Seq::<u8>::empty()) =~= b);
    } else if b.len() <= 3 {
        lemma_group(b);
    } else {
        let g = encode_group(b.take(3));
        let rest = base64_encode(b.skip(3));
        lemma_group(b.take(3));
        lemma_encode(b.skip(3));
        lemma_whole_groups_concat(g, rest);
        assert(b.take(3) + b.skip(3) =~= b);
        assert forall|k: int| 0 <= k < (g + rest).len() implies #[trigger] (g + rest)[k] != 45
            && (g + rest)[k] != 95 by {
            if k >= 4 {
                assert((g + rest)[k] == rest[k - 4]);
            }
        }
    }
}

/// Decoding gives back what the standard encoding encoded, and so does
/// decoding the URL-safe encoding and the encoding without its padding.
pub proof fn lemma_round_trip(b: Seq<u8>)
    ensures
        base64_decoded(base64_encode(b)) == Some(b),
        base64_decoded(base64_encode(b).map_values(|c: u8| to_url_alphabet(c))) == Some(b),
        base64_decoded(base64_encode(b).filter(|c: u8| !is_pad(c))) == Some(b),
{
    lemma_encode(b);
    let e = base64_encode(b);
    let u = e.map_values(|c: u8| to_url_alphabet(c));
    lemma_alphabets_agree(u);
    assert(u.map_values(|c: u8| to_standard_alphabet(c)) =~= e);
    lemma_padding_ignored(e);
}

/// Decodes `s` from Base64, accepting both alphabets, skipping every `=`, and
/// dropping leftover bits; `None` on any other byte.
pub fn base64url(s: &str) -> (r: Option<Vec<u8>>)
    ensures
        match base64_decoded(s.spec_bytes()) {
            Some(o) => r matches Some(out) && out@ == o,
            None => r is None,
        },
{
    decode_base64_bytes(s.as_bytes())
}

/// Decodes the Base64 text `b` as `base64url` does.
pub fn decode_base64_bytes(b: &[u8]) -> (r: Option<Vec<u8>>)
    ensures
        match base64_decoded(b@) {
            Some(o) => r matches Some(out) && out@ == o,
            None => r is None,
        },
{
    let mut out: Vec<u8> = Vec::new();
    let mut acc: u32 = 0;
    let mut bits: u32 = 0;
    let mut i: usize = 0;
    let ghost mut vs: Seq<u8> = Seq::empty();
    assert(b@.take(0) =~= Seq::<u8>::empty());
    while i < b.len()
        invariant
            i <= b.len(),
            sextets_of(b@.take(i as int)) == Some(vs),
            out@ == decode_sextets(vs),
            bits == pending_bits(vs.len()),
            vs.len() % 4 == 1 ==> (acc & 63u32) == pending_value(vs),
            vs.len() % 4 == 2 ==> (acc & 15u32) == pending_value(vs),
            vs.len() % 4 == 3 ==> (acc & 3u32) == pending_value(vs),
            forall|k: int| 0 <= k < vs.len() ==> #[trigger] vs[k] < 64,
        decreases b.len() - i,
    {
        let c = b[i];
        assert(b@.take(i + 1).drop_last() =~= b@.take(i as int));
        if c == 61 {
            i = i + 1;
            continue;
        }
        let v: u32 = if 65 <= c && c <= 90 {
            (c - 65) as u32
        } else if 97 <= c && c <= 122 {
            (c - 97 + 26) as u32
        } else if 48 <= c && c <= 57 {
            (c - 48 + 52) as u32
        } else if c == 45 || c == 43 {
            62
        } else if c == 95 || c == 47 {
            63
        } else {
            proof {
                let t = b@.take(i + 1);
                assert(t.last() == c);
                assert(sextet_value(c) is None);
                assert(sextets_of(t) is None);
                lemma_sextets_none_extends(b@, i + 1);
            }
            return None;
        };
        let ghost n = vs.len() as int;
        let ghost nvs = vs.push(v as u8);
        proof {
            lemma_pending_step(acc, v, pending_value(vs) as u32);
            assert(nvs[n as int] == v);
            assert forall|k: int| 0 <= k < nvs.len() implies #[trigger] nvs[k] < 64 by {
                if k < n {
                    assert(nvs[k] == vs[k]);
                }
            }
        }
        let ghost acc0 = acc;
        let ghost old_out = out@;
        acc = (acc << 6) | v;
        bits = bits + 6;
        if bits >= 8 {
            bits = bits - 8;
            out.push(#[verifier::truncate] ((acc >> bits) as u8));
        }
        proof {
            let o = decode_sextets(nvs);
            let old_len = decode_sextets(vs).len();
            assert forall|k: int| 0 <= k < old_len implies #[trigger] o[k] == old_out[k] by {
                assert(4 * (k / 3) + 3 < n || (k % 3 < 2 && 4 * (k / 3) + 2 < n) || (k % 3 == 0
                    && 4 * (k / 3) + 1 < n));
                assert(decoded_byte(nvs, k) == decoded_byte(vs, k));
            }
            let g = (n / 4) as int;
            if n % 4 == 0 {
                assert(o.len() == old_len);
            } else if n % 4 == 1 {
                assert(o.len() == old_len + 1);
                assert(old_len == 3 * g);
                assert(o[3 * g] == decoded_byte(nvs, 3 * g));
                assert(nvs[4 * g] == vs[n - 1]);
                assert(out@[3 * g] == o[3 * g]);
            } else if n % 4 == 2 {
                assert(o.len() == old_len + 1);
                assert(old_len == 3 * g + 1);
                assert((3 * g + 1) / 3 == g && (3 * g + 1) % 3 == 1);
                assert(o[3 * g + 1] == decoded_byte(nvs, 3 * g + 1));
                assert(nvs[4 * g + 1] == vs[n - 1]);
                assert(out@[3 * g + 1] == o[3 * g + 1]);
            } else {
                assert(o.len() == old_len + 1);
                assert(old_len == 3 * g + 2);
                assert((3 * g + 2) / 3 == g && (3 * g + 2) % 3 == 2);
                assert(o[3 * g + 2] == decoded_byte(nvs, 3 * g + 2));
                assert(nvs[4 * g + 2] == vs[n - 1]);
                assert((acc >> 0u32) == acc) by (bit_vector);
                assert(out@[3 * g + 2] == o[3 * g + 2]);
            }
            assert(out@ =~= o);
            vs = nvs;
        }
        i = i + 1;
    }
    assert(b@.take(b.len() as int) =~= b@);
    Some(out)
}

} // verus!
