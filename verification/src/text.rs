//! Lines of the tools' JSON-lines logs, picked by what they contain.
use vstd::prelude::*;
use vstd::string::StringSliceAdditionalSpecFns;

verus! {

/// Where the line that starts at `i` ends: the next `\n`, or the end of `b`.
pub open spec fn line_end(b: Seq<u8>, i: int) -> int
    decreases b.len() - i,
{
    if i >= b.len() {
        b.len() as int
    } else if b[i] == 10 {
        i
    } else {
        line_end(b, i + 1)
    }
}

/// A line that ended with `\n`, without the `\r` of a `\r\n` ending.
pub open spec fn strip_cr(l: Seq<u8>) -> Seq<u8> {
    if l.len() > 0 && l.last() == 13 {
        l.drop_last()
    } else {
        l
    }
}

/// The lines of `b` from byte `i` on, as `str::lines` gives them: split at
/// `\n`, a `\r` before the `\n` dropped, no empty line after a final `\n`.
pub open spec fn lines_from(b: Seq<u8>, i: int) -> Seq<Seq<u8>>
    decreases b.len() - i,
{
    if i < 0 || i >= b.len() {
        Seq::empty()
    } else {
        let e = line_end(b, i);
        proof {
            lemma_line_end(b, i);
        }
        if e >= b.len() {
            seq![b.subrange(i, b.len() as int)]
        } else {
            seq![strip_cr(b.subrange(i, e))] + lines_from(b, e + 1)
        }
    }
}

/// Whether `n` occurs in `h`.
pub open spec fn contains_bytes(h: Seq<u8>, n: Seq<u8>) -> bool {
    exists|k: int| 0 <= k && k + n.len() <= h.len() && #[trigger] h.subrange(k, k + n.len()) == n
}

/// The lines of `b` in which `n` occurs, in order.
pub open spec fn lines_containing_spec(b: Seq<u8>, n: Seq<u8>) -> Seq<Seq<u8>> {
    lines_from(b, 0).filter(|l: Seq<u8>| contains_bytes(l, n))
}

/// The line that starts at `i` ends at the first `\\n` from `i` on.
pub proof fn lemma_line_end(b: Seq<u8>, i: int)
    requires
        0 <= i <= b.len(),
    ensures
        i <= line_end(b, i) <= b.len(),
        line_end(b, i) < b.len() ==> b[line_end(b, i)] == 10,
        forall|k: int| i <= k < line_end(b, i) ==> b[k] != 10,
    decreases b.len() - i,
{
    if i < b.len() && b[i] != 10 {
        lemma_line_end(b, i + 1);
    }
}

proof fn lemma_line_end_shift(p: Seq<u8>, b: Seq<u8>, j: int)
    requires
        0 <= j <= b.len(),
    ensures
        line_end(p + b, p.len() + j) == p.len() + line_end(b, j),
    decreases b.len() - j,
{
    if j < b.len() {
        assert((p + b)[p.len() + j] == b[j]);
        if b[j] != 10 {
            lemma_line_end_shift(p, b, j + 1);
        }
    }
}

proof fn lemma_lines_shift(p: Seq<u8>, b: Seq<u8>, j: int)
    requires
        0 <= j,
    ensures
        lines_from(p + b, p.len() + j) == lines_from(b, j),
    decreases b.len() - j,
{
    let x = p + b;
    if j < b.len() {
        lemma_line_end_shift(p, b, j);
        lemma_line_end(b, j);
        let e = line_end(b, j);
        if e < b.len() {
            assert(x.subrange(p.len() + j, p.len() + e) =~= b.subrange(j, e));
            lemma_lines_shift(p, b, e + 1);
        } else {
            assert(x.subrange(p.len() + j, x.len() as int) =~= b.subrange(j, b.len() as int));
        }
    }
}

proof fn lemma_line_end_prefix(p: Seq<u8>, b: Seq<u8>, i: int)
    requires
        0 <= i < p.len(),
        p.last() == 10,
    ensures
        line_end(p + b, i) == line_end(p, i),
        line_end(p, i) < p.len(),
    decreases p.len() - i,
{
    assert((p + b)[i] == p[i]);
    if p[i] != 10 {
        lemma_line_end_prefix(p, b, i + 1);
    }
}

proof fn lemma_lines_prefix(p: Seq<u8>, b: Seq<u8>, i: int)
    requires
        0 <= i <= p.len(),
        p.len() > 0,
        p.last() == 10,
    ensures
        lines_from(p + b, i) == lines_from(p, i) + lines_from(b, 0),
    decreases p.len() - i,
{
    if i == p.len() {
        lemma_lines_shift(p, b, 0);
        assert(lines_from(p, i) + lines_from(b, 0) =~= lines_from(b, 0));
    } else {
        lemma_line_end_prefix(p, b, i);
        lemma_line_end(p, i);
        let e = line_end(p, i);
        assert((p + b).subrange(i, e) =~= p.subrange(i, e));
        lemma_lines_prefix(p, b, e + 1);
        let first = seq![strip_cr(p.subrange(i, e))];
        assert(first + (lines_from(p, e + 1) + lines_from(b, 0)) =~= (first + lines_from(p, e + 1))
            + lines_from(b, 0));
    }
}

/// What follows a line break leaves the lines before it as they were: the
/// lines of `a`, a `\n`, then `b` that contain `n` are those of `a` with its
/// `\n`, then those of `b`.
pub proof fn lemma_lines_containing_concat(a: Seq<u8>, b: Seq<u8>, n: Seq<u8>)
    ensures
        lines_containing_spec(a + seq![10u8] + b, n) == lines_containing_spec(a + seq![10u8], n)
            + lines_containing_spec(b, n),
{
    let p = a + seq![10u8];
    assert(p.last() == 10);
    lemma_lines_prefix(p, b, 0);
    let f = |l: Seq<u8>| contains_bytes(l, n);
    Seq::filter_distributes_over_add(lines_from(p, 0), lines_from(b, 0), f);
}

fn matches_at(h: &Vec<u8>, n: &[u8], k: usize) -> (r: bool)
    requires
        k + n.len() <= h.len(),
    ensures
        r == (h@.subrange(k as int, k + n@.len()) == n@),
{
    let mut m: usize = 0;
    while m < n.len()
        invariant
            k + n.len() <= h.len(),
            m <= n.len(),
            forall|q: int| 0 <= q < m ==> h@[k + q] == n@[q],
        decreases n.len() - m,
    {
        if h[k + m] != n[m] {
            assert(h@.subrange(k as int, k + n@.len())[m as int] != n@[m as int]);
            return false;
        }
        m = m + 1;
    }
    assert(h@.subrange(k as int, k + n@.len()) =~= n@);
    true
}

fn contains(h: &Vec<u8>, n: &[u8]) -> (r: bool)
    ensures
        r == contains_bytes(h@, n@),
{
    if n.len() > h.len() {
        return false;
    }
    if n.len() == 0 {
        assert(h@.subrange(0int, 0int + n@.len()) =~= n@);
        return true;
    }
    let last = h.len() - n.len();
    let mut k: usize = 0;
    while k <= last
        invariant
            0 < n.len() <= h.len(),
            last == h.len() - n.len(),
            forall|j: int| 0 <= j < k ==> #[trigger] h@.subrange(j, j + n@.len()) != n@,
        decreases h.len() + 1 - k,
    {
        if matches_at(h, n, k) {
            return true;
        }
        k = k + 1;
    }
    assert forall|j: int| 0 <= j && j + n@.len() <= h@.len() implies #[trigger] h@.subrange(j, j + n@.len()) != n@ by {
        assert(j < k);
    }
    false
}

/// The lines of `text` that contain `needle`, in order, as bytes.
pub fn lines_containing(text: &str, needle: &str) -> (r: Vec<Vec<u8>>)
    ensures
        r@.map_values(|l: Vec<u8>| l@) == lines_containing_spec(text.spec_bytes(), needle.spec_bytes()),
{
    let b = text.as_bytes();
    let n = needle.as_bytes();
    let ghost f = |l: Seq<u8>| contains_bytes(l, n@);
    let mut out: Vec<Vec<u8>> = Vec::new();
    let mut i: usize = 0;
    assert(out@.map_values(|l: Vec<u8>| l@) + lines_from(b@, 0).filter(f) =~= lines_from(b@, 0).filter(f));
    while i < b.len()
        invariant
            i <= b.len(),
            b@ == text.spec_bytes(),
            n@ == needle.spec_bytes(),
            f == (|l: Seq<u8>| contains_bytes(l, n@)),
            out@.map_values(|l: Vec<u8>| l@) + lines_from(b@, i as int).filter(f) == lines_from(b@, 0).filter(f),
        decreases b.len() - i,
    {
        proof {
            lemma_line_end(b@, i as int);
        }
        let mut line: Vec<u8> = Vec::new();
        let mut e = i;
        while e < b.len() && b[e] != 10
            invariant
                i <= e <= b.len(),
                line@ == b@.subrange(i as int, e as int),
                line_end(b@, i as int) == line_end(b@, e as int),
            decreases b.len() - e,
        {
            line.push(b[e]);
            e = e + 1;
            assert(line@ =~= b@.subrange(i as int, e as int));
        }
        let ghost rest_start: int;
        if e < b.len() {
            if line.len() > 0 && line[line.len() - 1] == 13 {
                line.pop();
            }
            proof {
                rest_start = e + 1;
            }
        } else {
            proof {
                rest_start = b.len() as int;
            }
        }
        proof {
            let l = line@;
            let ls = lines_from(b@, i as int);
            if e < b.len() {
                assert(l =~= strip_cr(b@.subrange(i as int, e as int)));
                assert(ls == seq![l] + lines_from(b@, e + 1));
            } else {
                assert(ls == seq![l]);
                assert(lines_from(b@, b.len() as int) == Seq::<Seq<u8>>::empty());
                assert(ls =~= seq![l] + lines_from(b@, rest_start));
            }
            Seq::filter_distributes_over_add(seq![l], lines_from(b@, rest_start), f);
            reveal_with_fuel(Seq::filter, 2);
            assert(seq![l].drop_last() =~= Seq::<Seq<u8>>::empty());
        }
        let keep = contains(&line, n);
        let ghost l = line@;
        if keep {
            out.push(line);
        }
        proof {
            if keep {
                assert(seq![l].filter(f) =~= seq![l]);
            } else {
                assert(seq![l].filter(f) =~= Seq::<Seq<u8>>::empty());
            }
        }
        if e < b.len() {
            i = e + 1;
        } else {
            i = e;
        }
        assert(out@.map_values(|l: Vec<u8>| l@) + lines_from(b@, i as int).filter(f) =~= lines_from(b@, 0).filter(f));
    }
    assert(lines_from(b@, i as int) == Seq::<Seq<u8>>::empty());
    assert(out@.map_values(|l: Vec<u8>| l@) =~= lines_from(b@, 0).filter(f));
    out
}

} // verus!
