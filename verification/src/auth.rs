//! Bearer-token extraction and the model of an introspection response.
//!
//! The `Authorization` value must be UTF-8; it is then read as
//! whitespace-separated fields: the first must be `Bearer` or `Token`
//! (any ASCII case), the second is the token.  Anything else counts
//! as "no token".  The network call to the introspection endpoint is
//! the surrounding program's job; what comes back is judged here.

use vstd::prelude::*;
use vstd::utf8::{valid_utf8, decode_utf8, encode_utf8, encode_utf8_decode_utf8};
use crate::headers::{HeaderMap, first_match, authorization_n, authorization_name_bytes};

pub mod extensions;

verus! {

/// The claims bound to a token, as the provider reported them.
pub struct IntrospectionResult {
    pub active: bool,
    pub sub: Option<Vec<u8>>,
    pub username: Option<Vec<u8>>,
    pub extra: extensions::Token,
}

/// The mathematical image of an [`IntrospectionResult`].
pub ghost struct IntrospectionRep {
    pub active: bool,
    pub sub: Option<Seq<u8>>,
    pub username: Option<Seq<u8>>,
    pub extra: extensions::TokenRep,
}

impl View for IntrospectionResult {
    type V = IntrospectionRep;

    open spec fn view(&self) -> IntrospectionRep {
        IntrospectionRep {
            active: self.active,
            sub: match self.sub {
                Some(s) => Some(s@),
                None => None,
            },
            username: match self.username {
                Some(u) => Some(u@),
                None => None,
            },
            extra: self.extra@,
        }
    }
}

/// What an introspection attempt came to: the transport failed, or the
/// provider answered.
pub enum IntrospectOutcome {
    Failed,
    Returned(IntrospectionResult),
}

/// The mathematical image of an [`IntrospectOutcome`].
pub ghost enum OutcomeRep {
    Failed,
    Returned(IntrospectionRep),
}

impl View for IntrospectOutcome {
    type V = OutcomeRep;

    open spec fn view(&self) -> OutcomeRep {
        match self {
            IntrospectOutcome::Failed => OutcomeRep::Failed,
            IntrospectOutcome::Returned(r) => OutcomeRep::Returned(r@),
        }
    }
}

/// Unicode whitespace, the separators between the fields of an
/// `Authorization` value.
pub open spec fn is_space_c(c: char) -> bool {
    c == '\u{0009}' || c == '\u{000A}' || c == '\u{000B}' || c == '\u{000C}' || c == '\u{000D}'
        || c == ' ' || c == '\u{0085}' || c == '\u{00A0}' || c == '\u{1680}' || ('\u{2000}' <= c
        && c <= '\u{200A}') || c == '\u{2028}' || c == '\u{2029}' || c == '\u{202F}'
        || c == '\u{205F}' || c == '\u{3000}'
}

/// Whether `c` is Unicode whitespace.
pub fn is_space_c_x(c: char) -> (r: bool)
    ensures
        r == is_space_c(c),
{
    c == '\u{0009}' || c == '\u{000A}' || c == '\u{000B}' || c == '\u{000C}' || c == '\u{000D}'
        || c == ' ' || c == '\u{0085}' || c == '\u{00A0}' || c == '\u{1680}' || ('\u{2000}' <= c
        && c <= '\u{200A}') || c == '\u{2028}' || c == '\u{2029}' || c == '\u{202F}'
        || c == '\u{205F}' || c == '\u{3000}'
}

/// Folds one ASCII upper-case letter to lower case; any other
/// character is unchanged.
pub open spec fn fold_c(c: char) -> char {
    if 'A' <= c && c <= 'Z' {
        ((c as u32) + 32) as char
    } else {
        c
    }
}

/// Executable ASCII case fold of one character.
pub fn fold_c_x(c: char) -> (r: char)
    ensures
        r == fold_c(c),
{
    if 'A' <= c && c <= 'Z' {
        (((c as u8) + 32)) as char
    } else {
        c
    }
}

/// Two character strings are equal up to ASCII case.
pub open spec fn eq_fold_c(a: Seq<char>, b: Seq<char>) -> bool {
    a.map_values(|c: char| fold_c(c)) == b.map_values(|c: char| fold_c(c))
}

/// `s` without its leading whitespace.
pub open spec fn skip_ws(s: Seq<char>) -> Seq<char>
    decreases s.len(),
{
    if s.len() > 0 && is_space_c(s[0]) {
        skip_ws(s.drop_first())
    } else {
        s
    }
}

/// The longest whitespace-free prefix of `s`.
pub open spec fn take_field(s: Seq<char>) -> Seq<char>
    decreases s.len(),
{
    if s.len() > 0 && !is_space_c(s[0]) {
        seq![s[0]] + take_field(s.drop_first())
    } else {
        Seq::empty()
    }
}

/// `s` without its longest whitespace-free prefix.
pub open spec fn drop_field(s: Seq<char>) -> Seq<char>
    decreases s.len(),
{
    if s.len() > 0 && !is_space_c(s[0]) {
        drop_field(s.drop_first())
    } else {
        s
    }
}

/// The scheme name `bearer`.
pub open spec fn bearer_rep() -> Seq<char> {
    seq!['b', 'e', 'a', 'r', 'e', 'r']
}

/// The scheme name `token`.
pub open spec fn token_scheme_rep() -> Seq<char> {
    seq!['t', 'o', 'k', 'e', 'n']
}

/// The bearer token among the fields of a decoded value: the second
/// whitespace-separated field, provided the first is `Bearer` or
/// `Token` in any ASCII case.
pub open spec fn token_fields(cs: Seq<char>) -> Option<Seq<char>> {
    let rest = skip_ws(cs);
    let scheme = take_field(rest);
    let tok = take_field(skip_ws(drop_field(rest)));
    if scheme.len() > 0 && tok.len() > 0 && (eq_fold_c(scheme, bearer_rep()) || eq_fold_c(
        scheme,
        token_scheme_rep(),
    )) {
        Some(tok)
    } else {
        None
    }
}

/// The bearer token in an `Authorization` value: the value must be
/// UTF-8, else there is no token.
pub open spec fn token_of(v: Seq<u8>) -> Option<Seq<char>> {
    if valid_utf8(v) {
        token_fields(decode_utf8(v))
    } else {
        None
    }
}

/// The bearer token presented by a request, if any: read from the
/// first `Authorization` header line.
pub open spec fn bearer_token(h: Seq<(Seq<u8>, Seq<u8>)>) -> Option<Seq<char>> {
    match first_match(h, authorization_n()) {
        Some(v) => token_of(v),
        None => None,
    }
}

/// Relies on `str::from_utf8`: `Ok` exactly on well-formed UTF-8, and
/// the returned slice holds the given bytes.
#[verifier::external_body]
fn utf8_to_str(v: &[u8]) -> (r: Option<&str>)
    ensures
        r is Some <==> valid_utf8(v@),
        r matches Some(s) ==> encode_utf8(s@) == v@,
{
    std::str::from_utf8(v).ok()
}

/// Where the leading whitespace of `s` ends, `skip_ws` drops exactly
/// that prefix.
proof fn lemma_skip_ws_at(s: Seq<char>, i: int)
    requires
        0 <= i <= s.len(),
        forall|j: int| 0 <= j < i ==> is_space_c(#[trigger] s[j]),
        i == s.len() || !is_space_c(s[i]),
    ensures
        skip_ws(s) == s.skip(i),
    decreases i,
{
    if i == 0 {
        assert(s.skip(0) =~= s);
    } else {
        assert(is_space_c(s[0]));
        let d = s.drop_first();
        assert(d =~= s.skip(1));
        assert forall|j: int| 0 <= j < i - 1 implies is_space_c(#[trigger] d[j]) by {
            assert(d[j] == s[j + 1]);
        }
        assert(i - 1 == d.len() || !is_space_c(d[i - 1]));
        lemma_skip_ws_at(d, i - 1);
        assert(d.skip(i - 1) =~= s.skip(i));
    }
}

/// Where the first field of `s` ends, `take_field` is exactly that
/// prefix and `drop_field` exactly the rest.
proof fn lemma_field_at(s: Seq<char>, i: int)
    requires
        0 <= i <= s.len(),
        forall|j: int| 0 <= j < i ==> !is_space_c(#[trigger] s[j]),
        i == s.len() || is_space_c(s[i]),
    ensures
        take_field(s) == s.take(i),
        drop_field(s) == s.skip(i),
    decreases i,
{
    if i == 0 {
        assert(s.take(0) =~= Seq::<char>::empty());
        assert(s.skip(0) =~= s);
    } else {
        assert(!is_space_c(s[0]));
        let d = s.drop_first();
        assert(d =~= s.skip(1));
        assert forall|j: int| 0 <= j < i - 1 implies !is_space_c(#[trigger] d[j]) by {
            assert(d[j] == s[j + 1]);
        }
        assert(i - 1 == d.len() || is_space_c(d[i - 1]));
        lemma_field_at(d, i - 1);
        assert(seq![s[0]] + d.take(i - 1) =~= s.take(i));
        assert(d.skip(i - 1) =~= s.skip(i));
    }
}

/// Whether characters `start..end` of `s` spell `word` up to ASCII
/// case.
fn field_folds_to(s: &str, start: usize, end: usize, word: &[char]) -> (r: bool)
    requires
        start <= end <= s@.len(),
    ensures
        r == eq_fold_c(s@.subrange(start as int, end as int), word@),
{
    let ghost sub = s@.subrange(start as int, end as int);
    if end - start != word.len() {
        proof {
            assert(sub.map_values(|c: char| fold_c(c)).len() != word@.map_values(
                |c: char| fold_c(c),
            ).len());
        }
        return false;
    }
    let n = word.len();
    let mut i: usize = 0;
    while i < n
        invariant
            sub == s@.subrange(start as int, end as int),
            start <= end <= s@.len(),
            n == word@.len() == end - start,
            0 <= i <= n,
            forall|j: int| 0 <= j < i ==> fold_c(#[trigger] sub[j]) == fold_c(word@[j]),
        decreases n - i,
    {
        let c = s.get_char(start + i);
        proof {
            assert(sub[i as int] == s@[start + i]);
        }
        if fold_c_x(c) != fold_c_x(word[i]) {
            proof {
                assert(sub.map_values(|c: char| fold_c(c))[i as int] != word@.map_values(
                    |c: char| fold_c(c),
                )[i as int]);
            }
            return false;
        }
        i += 1;
    }
    proof {
        assert(sub.map_values(|c: char| fold_c(c)) =~= word@.map_values(|c: char| fold_c(c)));
    }
    true
}

/// Reads the bearer token presented by a request, if any.
pub fn extract_access_token(headers: &HeaderMap) -> (r: Option<String>)
    ensures
        match r {
            Some(t) => bearer_token(headers@) == Some(t@),
            None => bearer_token(headers@) is None,
        },
{
    let name = authorization_name_bytes();
    let v = match headers.get_first(name.as_slice()) {
        Some(v) => v,
        None => {
            return None;
        },
    };
    let s = match utf8_to_str(v.as_slice()) {
        Some(s) => s,
        None => {
            return None;
        },
    };
    let ghost cs = s@;
    proof {
        encode_utf8_decode_utf8(s@);
        assert(decode_utf8(v@) == cs);
    }
    let n = s.unicode_len();
    let mut i: usize = 0;
    while i < n && is_space_c_x(s.get_char(i))
        invariant
            cs == s@,
            n == cs.len(),
            0 <= i <= n,
            forall|j: int| 0 <= j < i ==> is_space_c(#[trigger] cs[j]),
        decreases n - i,
    {
        i += 1;
    }
    let s1 = i;
    while i < n && !is_space_c_x(s.get_char(i))
        invariant
            cs == s@,
            n == cs.len(),
            0 <= s1 <= i <= n,
            forall|j: int| s1 <= j < i ==> !is_space_c(#[trigger] cs[j]),
        decreases n - i,
    {
        i += 1;
    }
    let e1 = i;
    while i < n && is_space_c_x(s.get_char(i))
        invariant
            cs == s@,
            n == cs.len(),
            0 <= e1 <= i <= n,
            forall|j: int| e1 <= j < i ==> is_space_c(#[trigger] cs[j]),
        decreases n - i,
    {
        i += 1;
    }
    let s2 = i;
    while i < n && !is_space_c_x(s.get_char(i))
        invariant
            cs == s@,
            n == cs.len(),
            0 <= s2 <= i <= n,
            forall|j: int| s2 <= j < i ==> !is_space_c(#[trigger] cs[j]),
        decreases n - i,
    {
        i += 1;
    }
    let e2 = i;
    proof {
        lemma_skip_ws_at(cs, s1 as int);
        let r1 = cs.skip(s1 as int);
        assert forall|j: int| 0 <= j < e1 - s1 implies !is_space_c(#[trigger] r1[j]) by {
            assert(r1[j] == cs[j + s1]);
        }
        assert(e1 - s1 == r1.len() || is_space_c(r1[e1 - s1]));
        lemma_field_at(r1, e1 - s1);
        assert(take_field(r1) =~= cs.subrange(s1 as int, e1 as int));
        assert(drop_field(r1) =~= cs.skip(e1 as int));
        let r15 = cs.skip(e1 as int);
        assert forall|j: int| 0 <= j < s2 - e1 implies is_space_c(#[trigger] r15[j]) by {
            assert(r15[j] == cs[j + e1]);
        }
        assert(s2 - e1 == r15.len() || !is_space_c(r15[s2 - e1]));
        lemma_skip_ws_at(r15, s2 - e1);
        let r2 = cs.skip(s2 as int);
        assert(r15.skip(s2 - e1) =~= r2);
        assert forall|j: int| 0 <= j < e2 - s2 implies !is_space_c(#[trigger] r2[j]) by {
            assert(r2[j] == cs[j + s2]);
        }
        assert(e2 - s2 == r2.len() || is_space_c(r2[e2 - s2]));
        lemma_field_at(r2, e2 - s2);
        assert(take_field(r2) =~= cs.subrange(s2 as int, e2 as int));
    }
    if s1 == e1 || s2 == e2 {
        return None;
    }
    let bearer_kw: [char; 6] = ['b', 'e', 'a', 'r', 'e', 'r'];
    let token_kw: [char; 5] = ['t', 'o', 'k', 'e', 'n'];
    proof {
        assert(bearer_kw@ =~= bearer_rep());
        assert(token_kw@ =~= token_scheme_rep());
    }
    if field_folds_to(s, s1, e1, bearer_kw.as_slice()) || field_folds_to(
        s,
        s1,
        e1,
        token_kw.as_slice(),
    ) {
        let tok = s.substring_char(s2, e2);
        proof {
            assert(tok@ == cs.subrange(s2 as int, e2 as int));
        }
        Some(tok.to_owned())
    } else {
        None
    }
}

} // verus!
