//! Byte-level text helpers: decimal numbers, literal text and line splitting.
use vstd::prelude::*;
use vstd::string::StringSliceAdditionalSpecFns;

verus! {

/// The UTF-8 bytes of a string literal.
#[verifier::opaque]
pub open spec fn lit(s: &str) -> Seq<u8> {
    s.spec_bytes()
}

/// The decimal digits of `n`, most significant first.
pub open spec fn decimal(n: nat) -> Seq<u8>
    decreases n,
{
    if n < 10 {
        seq![(48 + n) as u8]
    } else {
        decimal(n / 10).push((48 + n % 10) as u8)
    }
}

/// `n` spaces.
pub open spec fn spaces(n: nat) -> Seq<u8> {
    Seq::new(n, |i: int| 32u8)
}

/// Appends the bytes of `s`.
pub fn push_str(w: &mut Vec<u8>, s: &str)
    ensures
        final(w)@ == old(w)@ + lit(s),
{
    let b = s.as_bytes();
    proof {
        reveal(lit);
    }
    let mut i: usize = 0;
    while i < b.len()
        invariant
            b@ == lit(s),
            i <= b@.len(),
            w@ == old(w)@ + b@.subrange(0, i as int),
        decreases b@.len() - i,
    {
        w.push(b[i]);
        i = i + 1;
        assert(w@ =~= old(w)@ + b@.subrange(0, i as int));
    }
    assert(b@.subrange(0, b@.len() as int) =~= b@);
}

/// Appends the decimal digits of `n`.
pub fn push_decimal(w: &mut Vec<u8>, n: usize)
    ensures
        final(w)@ == old(w)@ + decimal(n as nat),
    decreases n,
{
    if n >= 10 {
        push_decimal(w, n / 10);
    }
    w.push((48 + n % 10) as u8);
    assert(w@ =~= old(w)@ + decimal(n as nat));
}

/// Appends `n` spaces.
pub fn push_spaces(w: &mut Vec<u8>, n: usize)
    ensures
        final(w)@ == old(w)@ + spaces(n as nat),
{
    let mut i: usize = 0;
    while i < n
        invariant
            i <= n,
            w@ == old(w)@ + spaces(i as nat),
        decreases n - i,
    {
        w.push(32u8);
        i = i + 1;
        assert(w@ =~= old(w)@ + spaces(i as nat));
    }
}

/// The byte spans of the lines of `s` from the line that starts at `p`,
/// scanning at `i`: a line ends at a line feed, which is left out together with
/// a carriage return right before it; the last line needs no line feed, and no
/// empty line follows a final one.
pub open spec fn line_spans_from(s: Seq<u8>, p: int, i: int) -> Seq<(int, int)>
    decreases s.len() - i,
{
    if i >= s.len() {
        if p >= s.len() {
            seq![]
        } else {
            seq![(p, s.len() as int)]
        }
    } else if s[i] == 10u8 {
        let e = if i > p && s[i - 1] == 13u8 {
            i - 1
        } else {
            i
        };
        seq![(p, e)] + line_spans_from(s, i + 1, i + 1)
    } else {
        line_spans_from(s, p, i + 1)
    }
}

/// The byte spans of the lines of `s`, each as `(start, end)` in `s`.
pub open spec fn line_spans(s: Seq<u8>) -> Seq<(int, int)> {
    line_spans_from(s, 0, 0)
}

/// The lines of `s`.
pub open spec fn lines(s: Seq<u8>) -> Seq<Seq<u8>> {
    line_spans(s).map_values(|x: (int, int)| s.subrange(x.0, x.1))
}

/// Splits `s` into the byte spans of its lines (see `line_spans`); each line
/// ends before the next one begins.
pub fn split_lines(s: &[u8]) -> (r: Vec<(usize, usize)>)
    ensures
        r@.len() == lines(s@).len() == line_spans(s@).len(),
        forall|k: int|
            0 <= k < r@.len() ==> (#[trigger] r@[k]).0 <= r@[k].1 <= s@.len() && s@.subrange(
                r@[k].0 as int,
                r@[k].1 as int,
            ) == lines(s@)[k] && line_spans(s@)[k] == (r@[k].0 as int, r@[k].1 as int),
        forall|k: int| 0 <= k < r@.len() - 1 ==> #[trigger] r@[k].1 < r@[k + 1].0,
{
    let mut r: Vec<(usize, usize)> = Vec::new();
    let mut p: usize = 0;
    let mut i: usize = 0;
    while i < s.len()
        invariant
            p <= i <= s@.len(),
            line_spans(s@) == r@.map_values(|x: (usize, usize)| (x.0 as int, x.1 as int))
                + line_spans_from(s@, p as int, i as int),
            forall|k: int| 0 <= k < r@.len() ==> #[trigger] r@[k].0 <= r@[k].1 < p,
            forall|k: int| 0 <= k < r@.len() - 1 ==> #[trigger] r@[k].1 < r@[k + 1].0,
        decreases s@.len() - i,
    {
        if s[i] == 10u8 {
            let mut e: usize = i;
            if e > p && s[e - 1] == 13u8 {
                e = e - 1;
            }
            let ghost old_r = r@;
            r.push((p, e));
            assert(r@.map_values(|x: (usize, usize)| (x.0 as int, x.1 as int))
                =~= old_r.map_values(|x: (usize, usize)| (x.0 as int, x.1 as int))
                + seq![(p as int, e as int)]);
            assert(forall|k: int| 0 <= k < old_r.len() ==> r@[k] == old_r[k]);
            assert forall|k: int| 0 <= k < r@.len() - 1 implies #[trigger] r@[k].1 < r@[k + 1].0 by {
                assert(r@[k] == old_r[k]);
                assert(old_r[k].0 <= old_r[k].1 < p);
            }
            p = i + 1;
        }
        i = i + 1;
    }
    if p < s.len() {
        let ghost old_r = r@;
        r.push((p, s.len()));
        assert(forall|k: int| 0 <= k < old_r.len() ==> r@[k] == old_r[k]);
        assert forall|k: int| 0 <= k < r@.len() - 1 implies #[trigger] r@[k].1 < r@[k + 1].0 by {
            assert(r@[k] == old_r[k]);
            assert(old_r[k].0 <= old_r[k].1 < p);
        }
        assert(r@.map_values(|x: (usize, usize)| (x.0 as int, x.1 as int))
            =~= old_r.map_values(|x: (usize, usize)| (x.0 as int, x.1 as int))
            + seq![(p as int, s@.len() as int)]);
    } else {
        assert(r@.map_values(|x: (usize, usize)| (x.0 as int, x.1 as int)) =~= line_spans(s@));
    }
    assert forall|k: int| 0 <= k < r@.len() implies line_spans(s@)[k] == ((#[trigger] r@[k]).0 as int, r@[k].1 as int)
        && s@.subrange(r@[k].0 as int, r@[k].1 as int) == lines(s@)[k] by {
        assert(line_spans(s@)[k] == r@.map_values(|x: (usize, usize)| (x.0 as int, x.1 as int))[k]);
    }
    r
}

} // verus!
