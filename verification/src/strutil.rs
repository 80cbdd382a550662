//! Verified string helpers: building strings character by character,
//! stripping carriage returns, and splitting on a separator.

use vstd::prelude::*;

verus! {

/// Relies on std's `String::push`: appends exactly the given character.
pub assume_specification[ String::push ](s: &mut String, c: char)
    ensures
        final(s)@ == old(s)@.push(c),
;

/// `t` without its carriage returns.
pub open spec fn strip_cr(t: Seq<char>) -> Seq<char>
    decreases t.len(),
{
    if t.len() == 0 {
        Seq::empty()
    } else {
        strip_cr(t.drop_last()) + (if t.last() == '\r' {
            Seq::<char>::empty()
        } else {
            seq![t.last()]
        })
    }
}

/// Remove every carriage return.
pub fn strip_cr_exec(s: &str) -> (r: String)
    ensures
        r@ == strip_cr(s@),
{
    let n = s.unicode_len();
    let mut out = String::new();
    let mut i: usize = 0;
    proof {
        assert(s@.subrange(0, 0) =~= Seq::<char>::empty());
    }
    while i < n
        invariant
            0 <= i <= n,
            n as int == s@.len(),
            out@ == strip_cr(s@.subrange(0, i as int)),
        decreases n - i,
    {
        let c = s.get_char(i);
        proof {
            assert(s@.subrange(0, i as int + 1).drop_last() =~= s@.subrange(0, i as int));
            assert(s@.subrange(0, i as int + 1).last() == s@[i as int]);
        }
        if c != '\r' {
            out.push(c);
            proof {
                assert(out@ =~= strip_cr(s@.subrange(0, i as int + 1)));
            }
        } else {
            proof {
                assert(out@ =~= strip_cr(s@.subrange(0, i as int + 1)));
            }
        }
        i = i + 1;
    }
    proof {
        assert(s@.subrange(0, n as int) =~= s@);
    }
    out
}

/// The character of one decimal digit.
pub open spec fn digit_char(d: int) -> char {
    if d == 0 {
        '0'
    } else if d == 1 {
        '1'
    } else if d == 2 {
        '2'
    } else if d == 3 {
        '3'
    } else if d == 4 {
        '4'
    } else if d == 5 {
        '5'
    } else if d == 6 {
        '6'
    } else if d == 7 {
        '7'
    } else if d == 8 {
        '8'
    } else {
        '9'
    }
}

/// The decimal digits of `n`, most significant first, no leading zeros.
pub open spec fn u8_digits(n: u8) -> Seq<char> {
    if n < 10 {
        seq![digit_char(n as int)]
    } else if n < 100 {
        seq![digit_char(n as int / 10), digit_char(n as int % 10)]
    } else {
        seq![
            digit_char(n as int / 100),
            digit_char((n as int / 10) % 10),
            digit_char(n as int % 10),
        ]
    }
}

fn digit_of(d: u8) -> (c: char)
    requires
        d < 10,
    ensures
        c == digit_char(d as int),
{
    if d == 0 {
        '0'
    } else if d == 1 {
        '1'
    } else if d == 2 {
        '2'
    } else if d == 3 {
        '3'
    } else if d == 4 {
        '4'
    } else if d == 5 {
        '5'
    } else if d == 6 {
        '6'
    } else if d == 7 {
        '7'
    } else if d == 8 {
        '8'
    } else {
        '9'
    }
}

/// `n` written in decimal.
pub fn u8_to_string(n: u8) -> (r: String)
    ensures
        r@ == u8_digits(n),
{
    let mut s = String::new();
    if n >= 100 {
        s.push(digit_of(n / 100));
    }
    if n >= 10 {
        s.push(digit_of((n / 10) % 10));
    }
    s.push(digit_of(n % 10));
    proof {
        assert(s@ =~= u8_digits(n));
    }
    s
}

/// Character-wise string equality.
pub fn str_eq(a: &str, b: &str) -> (r: bool)
    ensures
        r == (a@ == b@),
{
    let na = a.unicode_len();
    let nb = b.unicode_len();
    if na != nb {
        return false;
    }
    let mut i: usize = 0;
    while i < na
        invariant
            0 <= i <= na,
            na as int == a@.len(),
            nb as int == b@.len(),
            na == nb,
            forall|j: int| 0 <= j < i ==> a@[j] == b@[j],
        decreases na - i,
    {
        if a.get_char(i) != b.get_char(i) {
            proof {
                assert(a@[i as int] != b@[i as int]);
            }
            return false;
        }
        i = i + 1;
    }
    proof {
        assert(a@ =~= b@);
    }
    true
}

/// Whether `sep` occurs in `t` starting at `i`.
pub open spec fn matches_at(t: Seq<char>, sep: Seq<char>, i: int) -> bool {
    0 <= i && i + sep.len() <= t.len() && t.subrange(i, i + sep.len()) == sep
}

/// The first occurrence of `sep` in `t` at or after `i`.
pub open spec fn find_from(t: Seq<char>, sep: Seq<char>, i: int) -> Option<int>
    decreases t.len() - i,
{
    if sep.len() == 0 || i < 0 || i + sep.len() > t.len() {
        None
    } else if matches_at(t, sep, i) {
        Some(i)
    } else {
        find_from(t, sep, i + 1)
    }
}

/// `t` split on non-overlapping occurrences of `sep`, left to right; the
/// separators themselves are dropped.  An empty separator gives the whole
/// text back.
pub open spec fn split_on(t: Seq<char>, sep: Seq<char>) -> Seq<Seq<char>>
    decreases t.len(),
{
    if sep.len() == 0 {
        seq![t]
    } else {
        match find_from(t, sep, 0) {
            None => seq![t],
            Some(i) => if 0 <= i && i + sep.len() <= t.len() {
                seq![t.subrange(0, i)] + split_on(
                    t.subrange(i + sep.len(), t.len() as int),
                    sep,
                )
            } else {
                seq![t]
            },
        }
    }
}

proof fn lemma_find_from_in_range(t: Seq<char>, sep: Seq<char>, i: int)
    requires
        0 <= i,
    ensures
        match find_from(t, sep, i) {
            Some(j) => i <= j && j + sep.len() <= t.len() && matches_at(t, sep, j),
            None => true,
        },
    decreases t.len() - i,
{
    if !(sep.len() == 0 || i < 0 || i + sep.len() > t.len()) && !matches_at(t, sep, i) {
        lemma_find_from_in_range(t, sep, i + 1);
    }
}

/// Whether `sep` occurs at position `i` of `s`, by character comparison.
fn matches_at_exec(s: &str, n: usize, sep: &str, m: usize, i: usize) -> (r: bool)
    requires
        n as int == s@.len(),
        m as int == sep@.len(),
        i + m <= n,
    ensures
        r == matches_at(s@, sep@, i as int),
{
    let mut k: usize = 0;
    while k < m
        invariant
            0 <= k <= m,
            i + m <= n,
            n as int == s@.len(),
            m as int == sep@.len(),
            forall|j: int| 0 <= j < k ==> s@[i + j] == sep@[j],
        decreases m - k,
    {
        if s.get_char(i + k) != sep.get_char(k) {
            proof {
                assert(s@.subrange(i as int, i as int + m) != sep@) by {
                    assert(s@.subrange(i as int, i as int + m)[k as int] != sep@[k as int]);
                }
            }
            return false;
        }
        k = k + 1;
    }
    proof {
        assert(s@.subrange(i as int, i as int + m) =~= sep@);
    }
    true
}

/// The first occurrence of `sep` in `s` at or after `from`, by scanning.
pub fn find_from_exec(s: &str, n: usize, sep: &str, m: usize, from: usize) -> (r: Option<usize>)
    requires
        n as int == s@.len(),
        m as int == sep@.len(),
        m >= 1,
        from <= n,
    ensures
        match r {
            Some(j) => find_from(s@, sep@, from as int) == Some(j as int) && from <= j && j + m
                <= n,
            None => find_from(s@, sep@, from as int) is None,
        },
{
    if m > n {
        return None;
    }
    let mut i = from;
    while i <= n - m
        invariant
            from <= i,
            i <= n + 1,
            m <= n,
            n as int == s@.len(),
            m as int == sep@.len(),
            m >= 1,
            find_from(s@, sep@, from as int) == find_from(s@, sep@, i as int),
        decreases n - i,
    {
        if matches_at_exec(s, n, sep, m, i) {
            return Some(i);
        }
        i = i + 1;
    }
    None
}

/// Split `s` on non-overlapping occurrences of `sep`, left to right.
pub fn split_on_exec(s: &str, sep: &str) -> (r: Vec<String>)
    ensures
        r@.map_values(|p: String| p@) == split_on(s@, sep@),
        r@.len() >= 1,
{
    let n = s.unicode_len();
    let m = sep.unicode_len();
    let mut out: Vec<String> = Vec::new();
    if m == 0 {
        out.push(s.to_owned());
        proof {
            assert(out@.map_values(|p: String| p@) =~= split_on(s@, sep@));
        }
        return out;
    }
    let mut lo: usize = 0;
    let ghost t0 = s@;
    proof {
        assert(t0.subrange(0, n as int) =~= t0);
        assert(out@.map_values(|p: String| p@) + split_on(t0, sep@) =~= split_on(t0, sep@));
    }
    while lo <= n
        invariant
            0 <= lo <= n,
            n as int == s@.len(),
            m as int == sep@.len(),
            m >= 1,
            t0 == s@,
            split_on(t0, sep@) =~= out@.map_values(|p: String| p@) + split_on(
                t0.subrange(lo as int, n as int),
                sep@,
            ),
        decreases n - lo,
    {
        match find_from_exec(s, n, sep, m, lo) {
            Some(j) => {
                let piece = s.substring_char(lo, j);
                out.push(piece.to_owned());
                proof {
                    lemma_find_from_in_range(t0, sep@, lo as int);
                    let rest = t0.subrange(lo as int, n as int);
                    assert(find_from(rest, sep@, 0) == Some(j as int - lo as int)) by {
                        lemma_find_from_shift(t0, sep@, lo as int, n as int, lo as int);
                    }
                    assert(rest.subrange(0, j as int - lo as int) =~= t0.subrange(
                        lo as int,
                        j as int,
                    ));
                    assert(rest.subrange(
                        j as int - lo as int + m as int,
                        rest.len() as int,
                    ) =~= t0.subrange(j as int + m as int, n as int));
                    assert(split_on(rest, sep@) =~= seq![t0.subrange(lo as int, j as int)]
                        + split_on(t0.subrange(j as int + m as int, n as int), sep@));
                    assert(split_on(t0, sep@) =~= out@.map_values(|p: String| p@) + split_on(
                        t0.subrange(j as int + m as int, n as int),
                        sep@,
                    ));
                }
                lo = j + m;
            },
            None => {
                let piece = s.substring_char(lo, n);
                out.push(piece.to_owned());
                proof {
                    let rest = t0.subrange(lo as int, n as int);
                    assert(find_from(rest, sep@, 0) is None) by {
                        lemma_find_from_shift(t0, sep@, lo as int, n as int, lo as int);
                    }
                    assert(split_on(rest, sep@) =~= seq![rest]);
                    assert(split_on(t0, sep@) =~= out@.map_values(|p: String| p@));
                }
                return out;
            },
        }
    }
    proof {
        assert(false);
    }
    out
}

/// Searching inside `t[lo..hi]` mirrors searching `t` from `lo`, as long as
/// the window reaches the end of `t`.
proof fn lemma_find_from_shift(t: Seq<char>, sep: Seq<char>, lo: int, hi: int, i: int)
    requires
        0 <= lo <= i <= hi == t.len(),
    ensures
        match find_from(t, sep, i) {
            Some(j) => find_from(t.subrange(lo, hi), sep, i - lo) == Some(j - lo),
            None => find_from(t.subrange(lo, hi), sep, i - lo) is None,
        },
    decreases t.len() - i,
{
    let rest = t.subrange(lo, hi);
    if sep.len() >= 1 && i + sep.len() <= t.len() {
        assert(matches_at(t, sep, i) == matches_at(rest, sep, i - lo)) by {
            assert(t.subrange(i, i + sep.len()) =~= rest.subrange(
                i - lo,
                i - lo + sep.len(),
            ));
        }
        if !matches_at(t, sep, i) {
            lemma_find_from_shift(t, sep, lo, hi, i + 1);
        }
    }
}

} // verus!
