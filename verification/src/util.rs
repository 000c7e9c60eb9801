//! Byte-level helpers: slice equality, appending, decimal rendering.

use vstd::prelude::*;

verus! {

/// True exactly when the two slices hold the same bytes.
pub fn bytes_eq(a: &[u8], b: &[u8]) -> (r: bool)
    ensures
        r == (a@ == b@),
{
    if a.len() != b.len() {
        return false;
    }
    let mut i: usize = 0;
    while i < a.len()
        invariant
            i <= a@.len(),
            a@.len() == b@.len(),
            forall|j: int| 0 <= j < i ==> a@[j] == b@[j],
        decreases a@.len() - i,
    {
        if a[i] != b[i] {
            return false;
        }
        i = i + 1;
    }
    proof {
        assert(a@ =~= b@);
    }
    true
}

/// Appends all bytes of `s` to `out`.
pub fn push_all(out: &mut Vec<u8>, s: &[u8])
    ensures
        final(out)@ == old(out)@ + s@,
{
    out.extend_from_slice(s);
    proof {
        assert(out@ =~= old(out)@ + s@);
    }
}

/// True for the byte values the line editor strips as whitespace: ASCII
/// whitespace and the Latin-1 next-line and no-break-space bytes.
pub open spec fn is_ws(b: u8) -> bool {
    b == 9 || b == 10 || b == 11 || b == 12 || b == 13 || b == 32 || b == 0x85 || b == 0xa0
}

/// Executable form of [`is_ws`].
pub fn is_ws_exec(b: u8) -> (r: bool)
    ensures
        r == is_ws(b),
{
    b == 9 || b == 10 || b == 11 || b == 12 || b == 13 || b == 32 || b == 0x85 || b == 0xa0
}

/// The index of the first non-whitespace byte at or after `i`; the length
/// when none follows.
pub open spec fn first_non_ws(s: Seq<u8>, i: int) -> int
    decreases s.len() - i,
    when 0 <= i <= s.len()
{
    if i >= s.len() {
        s.len() as int
    } else if is_ws(s[i]) {
        first_non_ws(s, i + 1)
    } else {
        i
    }
}

/// One past the last non-whitespace byte before `j`; zero when none.
pub open spec fn end_non_ws(s: Seq<u8>, j: int) -> int
    decreases j,
    when 0 <= j <= s.len()
{
    if j <= 0 {
        0
    } else if is_ws(s[j - 1]) {
        end_non_ws(s, j - 1)
    } else {
        j
    }
}

/// `s` with leading and trailing whitespace stripped.
pub open spec fn trim_spec(s: Seq<u8>) -> Seq<u8> {
    let a = first_non_ws(s, 0);
    let b = end_non_ws(s, s.len() as int);
    if a <= b {
        s.subrange(a, b)
    } else {
        Seq::empty()
    }
}

/// The first and one-past-last indices of the non-whitespace middle of `s`.
pub fn trim_range(s: &[u8]) -> (r: (usize, usize))
    ensures
        r.0 <= s@.len(),
        r.1 <= s@.len(),
        r.0 == first_non_ws(s@, 0),
        r.1 == end_non_ws(s@, s@.len() as int),
{
    let mut a: usize = 0;
    while a < s.len() && is_ws_exec(s[a])
        invariant
            a <= s@.len(),
            first_non_ws(s@, 0) == first_non_ws(s@, a as int),
        decreases s@.len() - a,
    {
        a = a + 1;
    }
    let mut b: usize = s.len();
    while b > 0 && is_ws_exec(s[b - 1])
        invariant
            b <= s@.len(),
            end_non_ws(s@, s@.len() as int) == end_non_ws(s@, b as int),
        decreases b,
    {
        b = b - 1;
    }
    (a, b)
}

/// Splitting state: bytes of `s` from `i` on, with `cur` the piece read so
/// far and `acc` the pieces already complete. Empty pieces are dropped, so
/// repeated separators collapse.
pub open spec fn split_from(s: Seq<u8>, sep: u8, i: int, cur: Seq<u8>, acc: Seq<Seq<u8>>) -> Seq<
    Seq<u8>,
>
    decreases s.len() - i,
    when 0 <= i <= s.len()
{
    if i >= s.len() {
        if cur.len() > 0 {
            acc.push(cur)
        } else {
            acc
        }
    } else if s[i] == sep {
        if cur.len() > 0 {
            split_from(s, sep, i + 1, Seq::empty(), acc.push(cur))
        } else {
            split_from(s, sep, i + 1, Seq::empty(), acc)
        }
    } else {
        split_from(s, sep, i + 1, cur.push(s[i]), acc)
    }
}

/// The non-empty pieces of `s`, split on `sep`.
pub open spec fn split_on(s: Seq<u8>, sep: u8) -> Seq<Seq<u8>> {
    split_from(s, sep, 0, Seq::empty(), Seq::empty())
}

/// Pieces already accumulated pass through unchanged.
pub proof fn lemma_split_from_acc(s: Seq<u8>, sep: u8, i: int, cur: Seq<u8>, acc: Seq<Seq<u8>>)
    requires
        0 <= i <= s.len(),
    ensures
        split_from(s, sep, i, cur, acc) == acc + split_from(s, sep, i, cur, Seq::empty()),
    decreases s.len() - i,
{
    if i >= s.len() {
        assert(split_from(s, sep, i, cur, acc) =~= acc + split_from(s, sep, i, cur, Seq::empty()));
    } else if s[i] == sep {
        if cur.len() > 0 {
            lemma_split_from_acc(s, sep, i + 1, Seq::empty(), acc.push(cur));
            lemma_split_from_acc(s, sep, i + 1, Seq::empty(), Seq::empty().push(cur));
            assert(acc.push(cur) =~= acc + Seq::empty().push(cur));
            assert((acc + Seq::empty().push(cur)) + split_from(s, sep, i + 1, Seq::empty(), Seq::empty())
                =~= acc + split_from(s, sep, i, cur, Seq::empty()));
        } else {
            lemma_split_from_acc(s, sep, i + 1, Seq::empty(), acc);
        }
    } else {
        lemma_split_from_acc(s, sep, i + 1, cur.push(s[i]), acc);
    }
}

/// Splits `s` on `sep`, dropping empty pieces.
pub fn split_bytes(s: &[u8], sep: u8) -> (r: Vec<Vec<u8>>)
    ensures
        r.deep_view() == split_on(s@, sep),
{
    let mut r: Vec<Vec<u8>> = Vec::new();
    let mut cur: Vec<u8> = Vec::new();
    let mut i: usize = 0;
    proof {
        assert(r.deep_view() =~= Seq::<Seq<u8>>::empty());
        assert(cur@ =~= Seq::<u8>::empty());
    }
    while i < s.len()
        invariant
            i <= s@.len(),
            split_from(s@, sep, i as int, cur@, r.deep_view()) == split_on(s@, sep),
        decreases s@.len() - i,
    {
        let ghost r0: Seq<Seq<u8>> = r.deep_view();
        let ghost cur0: Seq<u8> = cur@;
        let ghost ii: int = i as int;
        if s[i] == sep {
            if cur.len() > 0 {
                r.push(cur);
                cur = Vec::new();
                proof {
                    assert(r.deep_view() =~~= r0.push(cur0));
                    assert(cur@ =~= Seq::<u8>::empty());
                    assert(split_from(s@, sep, ii, cur0, r0) == split_from(
                        s@,
                        sep,
                        ii + 1,
                        Seq::empty(),
                        r0.push(cur0),
                    ));
                }
            } else {
                proof {
                    assert(cur@ =~= Seq::<u8>::empty());
                    assert(split_from(s@, sep, ii, cur0, r0) == split_from(
                        s@,
                        sep,
                        ii + 1,
                        Seq::empty(),
                        r0,
                    ));
                }
            }
        } else {
            cur.push(s[i]);
            proof {
                assert(split_from(s@, sep, ii, cur0, r0) == split_from(
                    s@,
                    sep,
                    ii + 1,
                    cur0.push(s@[ii]),
                    r0,
                ));
                assert(cur@ =~= cur0.push(s@[ii]));
            }
        }
        i = i + 1;
    }
    if cur.len() > 0 {
        let ghost r0: Seq<Seq<u8>> = r.deep_view();
        let ghost cur0: Seq<u8> = cur@;
        r.push(cur);
        proof {
            assert(r.deep_view() =~~= r0.push(cur0));
        }
    }
    r
}

/// Whether `v` is well-formed UTF-8.
///
/// Relies on `str::from_utf8`, which accepts a byte slice exactly when it is
/// valid UTF-8.
#[verifier::external_body]
pub fn is_utf8(v: &[u8]) -> (r: bool)
    ensures
        r == vstd::utf8::valid_utf8(v@),
{
    core::str::from_utf8(v).is_ok()
}

/// The decimal digits of `n`, most significant first.
pub open spec fn dec_rep(n: nat) -> Seq<u8>
    decreases n,
{
    if n < 10 {
        seq![(48 + n) as u8]
    } else {
        dec_rep(n / 10).push((48 + n % 10) as u8)
    }
}

/// Renders `n` in decimal.
pub fn fmt_u64(n: u64) -> (r: Vec<u8>)
    ensures
        r@ == dec_rep(n as nat),
    decreases n,
{
    if n < 10 {
        let mut v: Vec<u8> = Vec::new();
        v.push(48 + n as u8);
        proof {
            assert(v@ =~= dec_rep(n as nat));
        }
        v
    } else {
        let mut v = fmt_u64(n / 10);
        v.push(48 + (n % 10) as u8);
        v
    }
}

} // verus!
