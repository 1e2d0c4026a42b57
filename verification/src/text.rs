//! Character-level text utilities shared by the output parser and the
//! test-listing parser: whitespace classification, extraction of the first
//! whitespace-delimited token of a line, and substring search.
use vstd::prelude::*;

verus! {

/// The characters with the Unicode `White_Space` property, the set that
/// `str::split_whitespace` splits on.
pub open spec fn is_wspace(c: char) -> bool {
    ||| c == '\u{9}'
    ||| c == '\u{a}'
    ||| c == '\u{b}'
    ||| c == '\u{c}'
    ||| c == '\u{d}'
    ||| c == ' '
    ||| c == '\u{85}'
    ||| c == '\u{a0}'
    ||| c == '\u{1680}'
    ||| c == '\u{2000}'
    ||| c == '\u{2001}'
    ||| c == '\u{2002}'
    ||| c == '\u{2003}'
    ||| c == '\u{2004}'
    ||| c == '\u{2005}'
    ||| c == '\u{2006}'
    ||| c == '\u{2007}'
    ||| c == '\u{2008}'
    ||| c == '\u{2009}'
    ||| c == '\u{200a}'
    ||| c == '\u{2028}'
    ||| c == '\u{2029}'
    ||| c == '\u{202f}'
    ||| c == '\u{205f}'
    ||| c == '\u{3000}'
}

pub fn wspace(c: char) -> (b: bool)
    ensures
        b == is_wspace(c),
{
    c == '\u{9}' || c == '\u{a}' || c == '\u{b}' || c == '\u{c}' || c == '\u{d}' || c == ' '
        || c == '\u{85}' || c == '\u{a0}' || c == '\u{1680}' || c == '\u{2000}' || c == '\u{2001}'
        || c == '\u{2002}' || c == '\u{2003}' || c == '\u{2004}' || c == '\u{2005}' || c
        == '\u{2006}' || c == '\u{2007}' || c == '\u{2008}' || c == '\u{2009}' || c == '\u{200a}'
        || c == '\u{2028}' || c == '\u{2029}' || c == '\u{202f}' || c == '\u{205f}' || c
        == '\u{3000}'
}

/// What is left of `u` after its leading whitespace.
pub open spec fn skip_ws(u: Seq<char>) -> Seq<char>
    decreases u.len(),
{
    if u.len() == 0 {
        u
    } else if is_wspace(u[0]) {
        skip_ws(u.drop_first())
    } else {
        u
    }
}

/// The maximal non-whitespace prefix of `u`.
pub open spec fn take_token(u: Seq<char>) -> Seq<char>
    decreases u.len(),
{
    if u.len() == 0 || is_wspace(u[0]) {
        Seq::empty()
    } else {
        seq![u[0]] + take_token(u.drop_first())
    }
}

/// The first whitespace-delimited token of `u`, or `None` if `u` is all
/// whitespace.
pub open spec fn first_token(u: Seq<char>) -> Option<Seq<char>> {
    if skip_ws(u).len() == 0 {
        None
    } else {
        Some(take_token(skip_ws(u)))
    }
}

/// Index form of `skip_ws`: if the first `b` characters are whitespace and
/// the character at `b` (if any) is not, skipping the leading whitespace
/// skips exactly `b` characters.
pub proof fn lemma_skip_ws_at(u: Seq<char>, b: int)
    requires
        0 <= b <= u.len(),
        forall|k: int| 0 <= k < b ==> is_wspace(u[k]),
        b == u.len() || !is_wspace(u[b]),
    ensures
        skip_ws(u) == u.skip(b),
    decreases b,
{
    if b == 0 {
        assert(u.skip(0) =~= u);
    } else {
        lemma_skip_ws_at(u.drop_first(), b - 1);
        assert(u.drop_first().skip(b - 1) =~= u.skip(b));
    }
}

/// Index form of `take_token`: if the first `e` characters are not
/// whitespace and the character at `e` (if any) is, the token is exactly the
/// first `e` characters.
pub proof fn lemma_take_token_at(u: Seq<char>, e: int)
    requires
        0 <= e <= u.len(),
        forall|k: int| 0 <= k < e ==> !is_wspace(u[k]),
        e == u.len() || is_wspace(u[e]),
    ensures
        take_token(u) == u.subrange(0, e),
    decreases e,
{
    if e == 0 {
        assert(u.subrange(0, 0) =~= Seq::<char>::empty());
    } else {
        lemma_take_token_at(u.drop_first(), e - 1);
        assert(seq![u[0]] + u.drop_first().subrange(0, e - 1) =~= u.subrange(0, e));
    }
}

/// The first whitespace-delimited token of `s`, looking only at the suffix
/// that starts at character `from`; `None` if that suffix is all whitespace.
pub fn extract_token(s: &str, from: usize) -> (r: Option<String>)
    requires
        from <= s@.len(),
    ensures
        match r {
            Some(t) => first_token(s@.skip(from as int)) == Some(t@),
            None => first_token(s@.skip(from as int)) is None,
        },
{
    let n = s.unicode_len();
    let ghost u = s@.skip(from as int);
    let mut b = from;
    while b < n && wspace(s.get_char(b))
        invariant
            from <= b <= n,
            n == s@.len(),
            from <= s@.len(),
            forall|k: int| from <= k < b ==> is_wspace(s@[k]),
        decreases n - b,
    {
        b = b + 1;
    }
    proof {
        assert forall|k: int| 0 <= k < b - from implies is_wspace(u[k]) by {
            assert(u[k] == s@[from + k]);
        }
        if b < n {
            assert(u[b - from] == s@[b as int]);
        }
        lemma_skip_ws_at(u, b - from);
    }
    if b == n {
        assert(skip_ws(u).len() == 0);
        return None;
    }
    let mut e = b;
    while e < n && !wspace(s.get_char(e))
        invariant
            b <= e <= n,
            n == s@.len(),
            forall|k: int| b <= k < e ==> !is_wspace(s@[k]),
        decreases n - e,
    {
        e = e + 1;
    }
    let tok = s.substring_char(b, e);
    let result = String::from_str(tok);
    proof {
        let v = u.skip(b - from);
        assert(v =~= s@.skip(b as int));
        assert forall|k: int| 0 <= k < e - b implies !is_wspace(v[k]) by {
            assert(v[k] == s@[b + k]);
        }
        if e < n {
            assert(v[e - b] == s@[e as int]);
        }
        lemma_take_token_at(v, e - b);
        assert(v.subrange(0, e - b) =~= s@.subrange(b as int, e as int));
        assert(skip_ws(u) == v);
        assert(skip_ws(u).len() > 0);
    }
    Some(result)
}

/// `n` occurs in `h` as a contiguous substring.
pub open spec fn contains_seq(h: Seq<char>, n: Seq<char>) -> bool {
    exists|i: int| 0 <= i && i + n.len() <= h.len() && #[trigger] h.subrange(i, i + n.len() as int)
        == n
}

/// Substring search: whether the characters of `n` occur contiguously in `h`.
pub fn contains_chars(h: &str, n: &Vec<char>) -> (b: bool)
    ensures
        b == contains_seq(h@, n@),
{
    let hn = h.unicode_len();
    let nn = n.len();
    if nn > hn {
        return false;
    }
    if nn == 0 {
        proof {
            assert(h@.subrange(0, 0 + n@.len() as int) =~= n@);
        }
        return true;
    }
    let mut i: usize = 0;
    while i <= hn - nn
        invariant
            1 <= nn <= hn,
            hn == h@.len(),
            nn == n@.len(),
            0 <= i <= hn - nn + 1,
            forall|q: int| 0 <= q < i ==> #[trigger] h@.subrange(q, q + nn) != n@,
        decreases hn - nn - i + 1,
    {
        let mut j: usize = 0;
        let mut matched = true;
        while j < nn
            invariant
                matched ==> forall|k: int| 0 <= k < j ==> h@[i + k] == n@[k],
                !matched ==> h@.subrange(i as int, i + nn) != n@,
                0 <= j <= nn,
                i + nn <= hn,
                hn == h@.len(),
                nn == n@.len(),
            decreases nn - j,
        {
            if h.get_char(i + j) != n[j] {
                proof {
                    assert(h@.subrange(i as int, i + nn)[j as int] == h@[i + j]);
                }
                matched = false;
                j = nn;
            } else {
                j = j + 1;
            }
        }
        if matched {
            proof {
                assert(h@.subrange(i as int, i + nn) =~= n@);
            }
            return true;
        }
        i = i + 1;
    }
    false
}

/// The marker substring that names a disabled test case.
pub open spec fn disabled_marker() -> Seq<char> {
    seq!['D', 'I', 'S', 'A', 'B', 'L', 'E', 'D', '_']
}

/// The characters of [`disabled_marker`], for executable search.
pub fn disabled_marker_chars() -> (v: Vec<char>)
    ensures
        v@ == disabled_marker(),
{
    let mut v: Vec<char> = Vec::new();
    v.push('D');
    v.push('I');
    v.push('S');
    v.push('A');
    v.push('B');
    v.push('L');
    v.push('E');
    v.push('D');
    v.push('_');
    proof {
        assert(v@ =~= disabled_marker());
    }
    v
}

} // verus!
