//! Case-insensitive wildcard matching, the heart of the listing filter.
//! A pattern is matched against lowercase text; the wildcard byte `%`
//! matches any stretch of text, and a pattern without a wildcard gets one
//! appended, turning it into a prefix match.

use vstd::prelude::*;

verus! {

/// The wildcard marker in filter patterns (the `%` byte).
pub const WILDCARD: u8 = 37;

/// The UTF-8 bytes of the lowercase form of a string: what
/// `str::to_lowercase` returns, a function of the characters alone.
pub uninterp spec fn lower_of(s: Seq<char>) -> Seq<u8>;

/// Relies on `str::to_lowercase`: the lowercase form of the string,
/// depending on its characters alone, handed back as its UTF-8 bytes.
#[verifier::external_body]
pub(crate) fn fold_lower(s: &str) -> (r: Vec<u8>)
    ensures
        r@ == lower_of(s@),
{
    s.to_lowercase().into_bytes()
}

/// The pattern holds a wildcard somewhere.
pub open spec fn spec_has_wildcard(p: Seq<u8>) -> bool {
    exists|i: int| 0 <= i < p.len() && p[i] == WILDCARD
}

/// A pattern as it is matched: unchanged if it holds a wildcard, with a
/// trailing wildcard appended (a prefix match) if it does not.
pub open spec fn spec_with_wildcard(p: Seq<u8>) -> Seq<u8> {
    if spec_has_wildcard(p) {
        p
    } else {
        p.push(WILDCARD)
    }
}

/// Wildcard matching: the wildcard byte matches any stretch of text,
/// every other byte matches itself, and the whole text must be covered.
pub open spec fn spec_like_matches(p: Seq<u8>, t: Seq<u8>) -> bool
    decreases p.len(), t.len(),
{
    if p.len() == 0 {
        t.len() == 0
    } else if p[0] == WILDCARD {
        spec_like_matches(p.skip(1), t) || (t.len() > 0 && spec_like_matches(p, t.skip(1)))
    } else {
        t.len() > 0 && p[0] == t[0] && spec_like_matches(p.skip(1), t.skip(1))
    }
}

/// Folds a filter string to lowercase bytes and appends the trailing
/// wildcard where the caller wrote none.
pub(crate) fn prepare_pattern(s: &str) -> (r: Vec<u8>)
    ensures
        r@ == spec_with_wildcard(lower_of(s@)),
{
    let mut v = fold_lower(s);
    let n = v.len();
    let mut i: usize = 0;
    while i < n
        invariant
            i <= n,
            n == v@.len(),
            v@ == lower_of(s@),
            forall|k: int| 0 <= k < i ==> v@[k] != WILDCARD,
        decreases n - i,
    {
        if v[i] == WILDCARD {
            return v;
        }
        i = i + 1;
    }
    v.push(WILDCARD);
    v
}

/// Matches the pattern suffix from `pi` against the text suffix from
/// `ti`, mirroring `spec_like_matches` branch for branch.
fn like_match_at(p: &Vec<u8>, pi: usize, t: &Vec<u8>, ti: usize) -> (b: bool)
    requires
        pi <= p@.len(),
        ti <= t@.len(),
    ensures
        b == spec_like_matches(p@.skip(pi as int), t@.skip(ti as int)),
    decreases p@.len() - pi, t@.len() - ti,
{
    let ghost ps = p@.skip(pi as int);
    let ghost ts = t@.skip(ti as int);
    if pi == p.len() {
        ti == t.len()
    } else if p[pi] == WILDCARD {
        proof {
            assert(ps[0] == p@[pi as int]);
            assert(ps.skip(1) == p@.skip(pi as int + 1));
        }
        if like_match_at(p, pi + 1, t, ti) {
            true
        } else if ti < t.len() {
            proof {
                assert(ts.skip(1) == t@.skip(ti as int + 1));
            }
            like_match_at(p, pi, t, ti + 1)
        } else {
            false
        }
    } else {
        proof {
            assert(ps[0] == p@[pi as int]);
            assert(ps.skip(1) == p@.skip(pi as int + 1));
        }
        if ti == t.len() {
            false
        } else if p[pi] == t[ti] {
            proof {
                assert(ts[0] == t@[ti as int]);
                assert(ts.skip(1) == t@.skip(ti as int + 1));
            }
            like_match_at(p, pi + 1, t, ti + 1)
        } else {
            false
        }
    }
}

/// Matches a whole pattern against whole text.
pub(crate) fn like_match(p: &Vec<u8>, t: &Vec<u8>) -> (b: bool)
    ensures
        b == spec_like_matches(p@, t@),
{
    proof {
        assert(p@.skip(0) == p@);
        assert(t@.skip(0) == t@);
    }
    like_match_at(p, 0, t, 0)
}

} // verus!
