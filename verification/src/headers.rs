//! A model of an HTTP header map: an ordered multimap from
//! case-insensitive byte-string names to byte-string values.

use vstd::prelude::*;
use crate::ascii::{eq_fold, eq_ignore_case};

verus! {

/// One header line: a name and a value.
pub struct HeaderEntry {
    pub name: Vec<u8>,
    pub value: Vec<u8>,
}

impl View for HeaderEntry {
    type V = (Seq<u8>, Seq<u8>);

    open spec fn view(&self) -> (Seq<u8>, Seq<u8>) {
        (self.name@, self.value@)
    }
}

/// An ordered list of header lines.  A name may occur more than once.
pub struct HeaderMap {
    pub entries: Vec<HeaderEntry>,
}

impl View for HeaderMap {
    type V = Seq<(Seq<u8>, Seq<u8>)>;

    open spec fn view(&self) -> Seq<(Seq<u8>, Seq<u8>)> {
        self.entries@.map_values(|e: HeaderEntry| e@)
    }
}

/// Some header line of `h` has the name `name`, up to ASCII case.
pub open spec fn has_name(h: Seq<(Seq<u8>, Seq<u8>)>, name: Seq<u8>) -> bool {
    exists|i: int| 0 <= i < h.len() && eq_fold(#[trigger] h[i].0, name)
}

/// The value of the first header line of `h` named `name`, if any.
pub open spec fn first_match(h: Seq<(Seq<u8>, Seq<u8>)>, name: Seq<u8>) -> Option<Seq<u8>>
    decreases h.len(),
{
    if h.len() == 0 {
        None
    } else if eq_fold(h[0].0, name) {
        Some(h[0].1)
    } else {
        first_match(h.drop_first(), name)
    }
}

/// Holds of a header line whose name differs from `name`, up to ASCII case.
pub open spec fn differs_from(name: Seq<u8>) -> spec_fn((Seq<u8>, Seq<u8>)) -> bool {
    |p: (Seq<u8>, Seq<u8>)| !eq_fold(p.0, name)
}

/// `h` with every line named `name` (up to ASCII case) removed.
pub open spec fn remove_name(h: Seq<(Seq<u8>, Seq<u8>)>, name: Seq<u8>) -> Seq<(Seq<u8>, Seq<u8>)> {
    h.filter(differs_from(name))
}

/// Every line of `remove_name(h, name)` has a name other than `name`.
pub proof fn lemma_remove_name_strips(h: Seq<(Seq<u8>, Seq<u8>)>, name: Seq<u8>)
    ensures
        !has_name(remove_name(h, name), name),
{
    let r = remove_name(h, name);
    assert forall|i: int| 0 <= i < r.len() implies !eq_fold(#[trigger] r[i].0, name) by {
        h.lemma_filter_pred(differs_from(name), i);
    }
}

/// Removing one name does not bring in lines of another name.
pub proof fn lemma_remove_name_keeps_absent(
    h: Seq<(Seq<u8>, Seq<u8>)>,
    removed: Seq<u8>,
    name: Seq<u8>,
)
    requires
        !has_name(h, name),
    ensures
        !has_name(remove_name(h, removed), name),
    decreases h.len(),
{
    reveal(Seq::filter);
    let pred = differs_from(removed);
    let r = remove_name(h, removed);
    if h.len() > 0 {
        let hd = h.drop_last();
        assert(forall|i: int| 0 <= i < hd.len() ==> #[trigger] hd[i] == h[i]);
        lemma_remove_name_keeps_absent(hd, removed, name);
        let rd = remove_name(hd, removed);
        assert(!eq_fold(h[h.len() - 1].0, name));
        assert forall|i: int| 0 <= i < r.len() implies !eq_fold(#[trigger] r[i].0, name) by {
            if pred(h.last()) {
                assert(r == rd.push(h.last()));
                if i < rd.len() {
                    assert(r[i] == rd[i]);
                } else {
                    assert(r[i] == h[h.len() - 1]);
                }
            } else {
                assert(r == rd);
            }
        }
    }
}

impl HeaderMap {
    /// An empty header map.
    pub fn new() -> (r: HeaderMap)
        ensures
            r@ =~= Seq::<(Seq<u8>, Seq<u8>)>::empty(),
    {
        HeaderMap { entries: Vec::new() }
    }

    /// The value of the first line named `name`, up to ASCII case.
    pub fn get_first(&self, name: &[u8]) -> (r: Option<&Vec<u8>>)
        ensures
            match r {
                Some(v) => first_match(self@, name@) == Some(v@),
                None => first_match(self@, name@) is None,
            },
    {
        let n = self.entries.len();
        let mut i: usize = 0;
        proof {
            assert(self@.skip(0) =~= self@);
        }
        while i < n
            invariant
                n == self.entries@.len(),
                0 <= i <= n,
                first_match(self@, name@) == first_match(self@.skip(i as int), name@),
            decreases n - i,
        {
            proof {
                assert(self@.skip(i as int).len() == n - i);
                assert(self@.skip(i as int)[0] == self@[i as int]);
            }
            if eq_ignore_case(self.entries[i].name.as_slice(), name) {
                return Some(&self.entries[i].value);
            }
            proof {
                assert(self@.skip(i as int).drop_first() =~= self@.skip(i as int + 1));
            }
            i += 1;
        }
        proof {
            assert(self@.skip(n as int) =~= Seq::<(Seq<u8>, Seq<u8>)>::empty());
        }
        None
    }

    /// Removes every line named `name`, up to ASCII case.
    pub fn remove_all(&mut self, name: &[u8])
        ensures
            final(self)@ == remove_name(old(self)@, name@),
    {
        let ghost orig = self@;
        let n = self.entries.len();
        let mut kept: Vec<HeaderEntry> = Vec::new();
        let mut i: usize = 0;
        proof {
            reveal(Seq::filter);
            assert(orig.take(0) =~= Seq::<(Seq<u8>, Seq<u8>)>::empty());
            assert(kept@.map_values(|e: HeaderEntry| e@)
                =~= orig.take(0).filter(differs_from(name@)));
        }
        while i < n
            invariant
                n == self.entries@.len(),
                orig == self@,
                0 <= i <= n,
                kept@.map_values(|e: HeaderEntry| e@)
                    == orig.take(i as int).filter(differs_from(name@)),
            decreases n - i,
        {
            let ghost before = kept@.map_values(|e: HeaderEntry| e@);
            let keep = !eq_ignore_case(self.entries[i].name.as_slice(), name);
            if keep {
                let e = HeaderEntry {
                    name: vstd::slice::slice_to_vec(self.entries[i].name.as_slice()),
                    value: vstd::slice::slice_to_vec(self.entries[i].value.as_slice()),
                };
                proof {
                    assert(e@ == orig[i as int]);
                }
                kept.push(e);
            }
            proof {
                reveal(Seq::filter);
                let t1 = orig.take(i as int + 1);
                let t0 = orig.take(i as int);
                assert(t1.len() == i + 1);
                assert(t1.drop_last() =~= t0);
                assert(orig[i as int] == self.entries@[i as int]@);
                assert(t1.last() == orig[i as int]);
                let pd = differs_from(name@);
                assert(pd(t1.last()) == !eq_fold(t1.last().0, name@));
                assert(t1.filter(pd) == if pd(t1.last()) {
                    t1.drop_last().filter(pd).push(t1.last())
                } else {
                    t1.drop_last().filter(pd)
                });
                if keep {
                    assert(pd(t1.last()));
                    assert(kept@.map_values(|e: HeaderEntry| e@)
                        =~= before.push(orig[i as int]));
                } else {
                    assert(!pd(t1.last()));
                    assert(kept@.map_values(|e: HeaderEntry| e@) =~= before);
                }
            }
            i += 1;
        }
        proof {
            assert(orig.take(n as int) =~= orig);
        }
        self.entries = kept;
    }

    /// Appends a line at the end, keeping any line of the same name.
    pub fn append(&mut self, name: Vec<u8>, value: Vec<u8>)
        ensures
            final(self)@ == old(self)@.push((name@, value@)),
    {
        let ghost orig = self@;
        self.entries.push(HeaderEntry { name, value });
        proof {
            assert(final(self)@ =~= orig.push((name@, value@)));
        }
    }

    /// Replaces every line named `name` with the single given line, at the end.
    pub fn insert(&mut self, name: Vec<u8>, value: Vec<u8>)
        ensures
            final(self)@ == remove_name(old(self)@, name@).push((name@, value@)),
    {
        self.remove_all(name.as_slice());
        self.append(name, value);
    }

    /// How many lines the map holds.
    pub fn len(&self) -> (r: usize)
        ensures
            r == self@.len(),
    {
        self.entries.len()
    }
}


/// The header name `host`.
pub open spec fn host_n() -> Seq<u8> {
    seq![104u8, 111u8, 115u8, 116u8]
}

/// The header name `authorization`.
pub open spec fn authorization_n() -> Seq<u8> {
    seq![97u8, 117u8, 116u8, 104u8, 111u8, 114u8, 105u8, 122u8, 97u8, 116u8, 105u8, 111u8, 110u8]
}

/// The trusted header name `x-user-id`.
pub open spec fn x_user_id_n() -> Seq<u8> {
    seq![120u8, 45u8, 117u8, 115u8, 101u8, 114u8, 45u8, 105u8, 100u8]
}

/// The trusted header name `x-user-name`.
pub open spec fn x_user_name_n() -> Seq<u8> {
    seq![120u8, 45u8, 117u8, 115u8, 101u8, 114u8, 45u8, 110u8, 97u8, 109u8, 101u8]
}

/// The trusted header name `x-user-role`.
pub open spec fn x_user_role_n() -> Seq<u8> {
    seq![120u8, 45u8, 117u8, 115u8, 101u8, 114u8, 45u8, 114u8, 111u8, 108u8, 101u8]
}

/// The header name `forwarded`.
pub open spec fn forwarded_n() -> Seq<u8> {
    seq![102u8, 111u8, 114u8, 119u8, 97u8, 114u8, 100u8, 101u8, 100u8]
}

/// The header name `host`, as bytes.
pub fn host_name_bytes() -> (r: Vec<u8>)
    ensures
        r@ == host_n(),
{
    let a: [u8; 4] = [104, 111, 115, 116];
    let v = vstd::slice::slice_to_vec(a.as_slice());
    proof {
        assert(v@ =~= host_n());
    }
    v
}

/// The header name `authorization`, as bytes.
pub fn authorization_name_bytes() -> (r: Vec<u8>)
    ensures
        r@ == authorization_n(),
{
    let a: [u8; 13] = [97, 117, 116, 104, 111, 114, 105, 122, 97, 116, 105, 111, 110];
    let v = vstd::slice::slice_to_vec(a.as_slice());
    proof {
        assert(v@ =~= authorization_n());
    }
    v
}

/// The trusted header name `x-user-id`, as bytes.
pub fn x_user_id_name_bytes() -> (r: Vec<u8>)
    ensures
        r@ == x_user_id_n(),
{
    let a: [u8; 9] = [120, 45, 117, 115, 101, 114, 45, 105, 100];
    let v = vstd::slice::slice_to_vec(a.as_slice());
    proof {
        assert(v@ =~= x_user_id_n());
    }
    v
}

/// The trusted header name `x-user-name`, as bytes.
pub fn x_user_name_name_bytes() -> (r: Vec<u8>)
    ensures
        r@ == x_user_name_n(),
{
    let a: [u8; 11] = [120, 45, 117, 115, 101, 114, 45, 110, 97, 109, 101];
    let v = vstd::slice::slice_to_vec(a.as_slice());
    proof {
        assert(v@ =~= x_user_name_n());
    }
    v
}

/// The trusted header name `x-user-role`, as bytes.
pub fn x_user_role_name_bytes() -> (r: Vec<u8>)
    ensures
        r@ == x_user_role_n(),
{
    let a: [u8; 11] = [120, 45, 117, 115, 101, 114, 45, 114, 111, 108, 101];
    let v = vstd::slice::slice_to_vec(a.as_slice());
    proof {
        assert(v@ =~= x_user_role_n());
    }
    v
}

/// The header name `forwarded`, as bytes.
pub fn forwarded_name_bytes() -> (r: Vec<u8>)
    ensures
        r@ == forwarded_n(),
{
    let a: [u8; 9] = [102, 111, 114, 119, 97, 114, 100, 101, 100];
    let v = vstd::slice::slice_to_vec(a.as_slice());
    proof {
        assert(v@ =~= forwarded_n());
    }
    v
}

} // verus!
