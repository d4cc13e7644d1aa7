//! Public-route patterns.  A virtual host declares a set of regular
//! expressions; a request path matching any of them (each compiled
//! anchored, `^p$`) bypasses authentication.  Matching is done by the
//! `regex` crate behind trusted wrappers.

use vstd::prelude::*;
use regex::RegexSet;

verus! {

#[verifier::external_type_specification]
#[verifier::external_body]
pub struct ExRegexSet(RegexSet);

/// The patterns a compiled set was built from, as byte strings.
pub uninterp spec fn route_set_patterns(s: RegexSet) -> Seq<Seq<u8>>;

/// Whether any of `patterns` matches `path`, with the `regex` crate's
/// match semantics.
pub uninterp spec fn route_match(patterns: Seq<Seq<u8>>, path: Seq<u8>) -> bool;

/// Whether `RegexSet::new` accepts these byte patterns: each one is
/// UTF-8 and a valid regular expression.
pub uninterp spec fn patterns_compile_ok(patterns: Seq<Seq<u8>>) -> bool;

/// Relies on `regex::RegexSet::new`: compiles the given patterns into
/// one set; an invalid pattern (or one that is not UTF-8) yields `None`.
#[verifier::external_body]
pub(crate) fn compile_route_set(patterns: &Vec<Vec<u8>>) -> (r: Option<RegexSet>)
    ensures
        r is Some <==> patterns_compile_ok(patterns@.map_values(|p: Vec<u8>| p@)),
        r matches Some(s) ==> route_set_patterns(s) == patterns@.map_values(|p: Vec<u8>| p@),
{
    let mut texts: Vec<&str> = Vec::new();
    for p in patterns.iter() {
        match std::str::from_utf8(p) {
            Ok(t) => texts.push(t),
            Err(_) => return None,
        }
    }
    RegexSet::new(texts).ok()
}

/// Relies on `regex::RegexSet::is_match`: true if and only if some
/// pattern of the set matches the path.
#[verifier::external_body]
pub(crate) fn route_set_is_match(s: &RegexSet, path: &Vec<u8>) -> (r: bool)
    ensures
        r == route_match(route_set_patterns(*s), path@),
{
    match std::str::from_utf8(path) {
        Ok(p) => s.is_match(p),
        Err(_) => false,
    }
}

/// The pattern `p` wrapped in anchors: `^p$`.
pub open spec fn anchored(p: Seq<u8>) -> Seq<u8> {
    seq![94u8] + p + seq![36u8]
}

/// Anchors every pattern of a route list.
pub fn anchor_patterns(patterns: &Vec<Vec<u8>>) -> (r: Vec<Vec<u8>>)
    ensures
        r@.map_values(|p: Vec<u8>| p@) == patterns@.map_values(|p: Vec<u8>| p@).map_values(
            |p: Seq<u8>| anchored(p),
        ),
{
    let n = patterns.len();
    let mut out: Vec<Vec<u8>> = Vec::new();
    let mut i: usize = 0;
    while i < n
        invariant
            n == patterns@.len(),
            0 <= i <= n,
            out@.len() == i,
            forall|j: int| 0 <= j < i ==> #[trigger] out@[j]@ == anchored(patterns@[j]@),
        decreases n - i,
    {
        let mut a: Vec<u8> = Vec::new();
        a.push(94);
        let m = patterns[i].len();
        let mut k: usize = 0;
        proof {
            assert(a@ =~= seq![94u8] + patterns@[i as int]@.take(0));
        }
        while k < m
            invariant
                m == patterns@[i as int]@.len(),
                0 <= k <= m,
                i < n == patterns@.len(),
                a@ == seq![94u8] + patterns@[i as int]@.take(k as int),
            decreases m - k,
        {
            a.push(patterns[i][k]);
            proof {
                assert(patterns@[i as int]@.take(k + 1)
                    =~= patterns@[i as int]@.take(k as int).push(patterns@[i as int]@[k as int]));
                assert(a@ =~= seq![94u8] + patterns@[i as int]@.take(k + 1));
            }
            k += 1;
        }
        a.push(36);
        proof {
            assert(patterns@[i as int]@.take(m as int) =~= patterns@[i as int]@);
            assert(a@ =~= anchored(patterns@[i as int]@));
        }
        out.push(a);
        i += 1;
    }
    proof {
        assert(out@.map_values(|p: Vec<u8>| p@) =~= patterns@.map_values(|p: Vec<u8>| p@)
            .map_values(|p: Seq<u8>| anchored(p)));
    }
    out
}

} // verus!
