//! Per-listen-address certificate state: a resolver maps a server
//! name, case-insensitively, to the certified key presented during the
//! TLS handshake, and the manager keys one resolver by listen address.
//! The key material itself is opaque here; the resolver is generic
//! over it.  Name validation goes through `webpki`.

use vstd::prelude::*;
use crate::ascii::{eq_fold, eq_ignore_case};
use crate::net::Addr;

verus! {

/// Whether `webpki` accepts `name` as a syntactically valid DNS name.
pub uninterp spec fn dns_name_ok(name: Seq<u8>) -> bool;

/// A byte that may occur in a DNS name: an ASCII letter, digit,
/// hyphen, underscore or dot.
pub open spec fn is_dns_byte(b: u8) -> bool {
    (97 <= b && b <= 122) || (65 <= b && b <= 90) || (48 <= b && b <= 57) || b == 45 || b == 95
        || b == 46
}

/// Relies on `webpki::DnsNameRef::try_from_ascii`: `Ok` exactly on a
/// syntactically valid DNS name, and every byte it accepts is an ASCII
/// letter, digit, hyphen, underscore or dot.
#[verifier::external_body]
fn dns_name_is_valid(name: &Vec<u8>) -> (r: bool)
    ensures
        r == dns_name_ok(name@),
        r ==> forall|i: int| 0 <= i < name@.len() ==> is_dns_byte(#[trigger] name@[i]),
{
    webpki::DnsNameRef::try_from_ascii(name).is_ok()
}

/// The error of registering certificate material under a name that is
/// no valid DNS name.
#[derive(Debug)]
pub struct BadDnsName;

/// The key a resolver holds for `name`, compared case-insensitively;
/// the first (and, as maintained, only) entry wins.
pub open spec fn resolve_rep<K>(entries: Seq<(Seq<u8>, K)>, name: Seq<u8>) -> Option<K>
    decreases entries.len(),
{
    if entries.len() == 0 {
        None
    } else if eq_fold(entries[0].0, name) {
        Some(entries[0].1)
    } else {
        resolve_rep(entries.drop_first(), name)
    }
}

/// The entries after registering `key` under `name`: the first entry
/// of that name (case-insensitively) keeps its stored spelling but
/// carries the new key; without one, the pair is appended.
pub open spec fn added_rep<K>(entries: Seq<(Seq<u8>, K)>, name: Seq<u8>, key: K) -> Seq<
    (Seq<u8>, K),
>
    decreases entries.len(),
{
    if entries.len() == 0 {
        seq![(name, key)]
    } else if eq_fold(entries[0].0, name) {
        seq![(entries[0].0, key)] + entries.drop_first()
    } else {
        seq![entries[0]] + added_rep(entries.drop_first(), name, key)
    }
}

/// Lookup is case-insensitive and stable: two spellings of one name
/// resolve to the same key.
pub proof fn lemma_resolve_case_insensitive<K>(entries: Seq<(Seq<u8>, K)>, a: Seq<u8>, b: Seq<u8>)
    requires
        eq_fold(a, b),
    ensures
        resolve_rep(entries, a) == resolve_rep(entries, b),
    decreases entries.len(),
{
    if entries.len() > 0 {
        lemma_resolve_case_insensitive(entries.drop_first(), a, b);
    }
}

/// The second registration wins: after adding `key` under `name`, that
/// name (in any ASCII case) resolves to `key`, and every other name
/// resolves as before.
pub proof fn lemma_second_key_wins<K>(
    entries: Seq<(Seq<u8>, K)>,
    name: Seq<u8>,
    key: K,
    probe: Seq<u8>,
)
    ensures
        eq_fold(probe, name) ==> resolve_rep(added_rep(entries, name, key), probe) == Some(key),
        !eq_fold(probe, name) ==> resolve_rep(added_rep(entries, name, key), probe)
            == resolve_rep(entries, probe),
    decreases entries.len(),
{
    let r = added_rep(entries, name, key);
    if entries.len() == 0 {
        assert(r == seq![(name, key)]);
        assert(r.drop_first() =~= Seq::<(Seq<u8>, K)>::empty());
    } else if eq_fold(entries[0].0, name) {
        assert(r == seq![(entries[0].0, key)] + entries.drop_first());
        assert(r[0] == (entries[0].0, key));
        assert(r.drop_first() =~= entries.drop_first());
        if eq_fold(probe, name) {
            assert(eq_fold(r[0].0, probe));
            assert(resolve_rep(r, probe) == Some(key));
        } else {
            assert(!eq_fold(r[0].0, probe));
            assert(!eq_fold(entries[0].0, probe));
            assert(resolve_rep(r, probe) == resolve_rep(r.drop_first(), probe));
            assert(resolve_rep(entries, probe) == resolve_rep(entries.drop_first(), probe));
        }
    } else {
        assert(r == seq![entries[0]] + added_rep(entries.drop_first(), name, key));
        assert(r[0] == entries[0]);
        assert(r.drop_first() =~= added_rep(entries.drop_first(), name, key));
        lemma_second_key_wins(entries.drop_first(), name, key, probe);
        if eq_fold(probe, name) {
            assert(!eq_fold(r[0].0, probe));
            assert(resolve_rep(r, probe) == resolve_rep(r.drop_first(), probe));
        } else {
            if eq_fold(entries[0].0, probe) {
                assert(resolve_rep(r, probe) == Some(entries[0].1));
                assert(resolve_rep(entries, probe) == Some(entries[0].1));
            } else {
                assert(resolve_rep(r, probe) == resolve_rep(r.drop_first(), probe));
                assert(resolve_rep(entries, probe) == resolve_rep(entries.drop_first(), probe));
            }
        }
    }
}

/// A per-listen-address map from server name to certificate material,
/// consulted during the TLS handshake.
pub struct CertResolver<K> {
    pub names: Vec<Vec<u8>>,
    pub keys: Vec<K>,
}

impl<K> View for CertResolver<K> {
    type V = Seq<(Seq<u8>, K)>;

    open spec fn view(&self) -> Seq<(Seq<u8>, K)> {
        Seq::new(self.names@.len(), |i: int| (self.names@[i]@, self.keys@[i]))
    }
}

impl<K> CertResolver<K> {
    /// Both columns line up, and every registered name passed DNS
    /// validation.
    pub open spec fn wf(&self) -> bool {
        &&& self.names@.len() == self.keys@.len()
        &&& forall|i: int| 0 <= i < self.names@.len() ==> dns_name_ok(#[trigger] self.names@[i]@)
    }

    /// An empty resolver.
    pub fn new() -> (r: CertResolver<K>)
        ensures
            r.wf(),
            r@ =~= Seq::<(Seq<u8>, K)>::empty(),
    {
        CertResolver { names: Vec::new(), keys: Vec::new() }
    }

    /// Registers `certified_key` under `server_name`, replacing any
    /// earlier key of that name.  Rejects a name that is no valid DNS
    /// name — in particular any name with a byte outside ASCII
    /// letters, digits, hyphen, underscore and dot — leaving the
    /// resolver unchanged.
    pub fn add_certified_key(&mut self, server_name: Vec<u8>, certified_key: K) -> (r: Result<
        (),
        BadDnsName,
    >)
        requires
            old(self).wf(),
        ensures
            final(self).wf(),
            r is Ok <==> dns_name_ok(server_name@),
            (exists|i: int|
                0 <= i < server_name@.len() && !is_dns_byte(server_name@[i])) ==> r is Err,
            r is Ok ==> final(self)@ == added_rep(old(self)@, server_name@, certified_key),
            r is Err ==> final(self)@ == old(self)@,
    {
        if !dns_name_is_valid(&server_name) {
            return Err(BadDnsName);
        }
        let ghost orig = self@;
        let n = self.names.len();
        let mut i: usize = 0;
        proof {
            assert(orig.skip(0) =~= orig);
            assert(orig.take(0) + added_rep(orig.skip(0), server_name@, certified_key)
                =~= added_rep(orig, server_name@, certified_key));
        }
        while i < n
            invariant
                n == self.names@.len(),
                orig == self@,
                orig == old(self)@,
                self.wf(),
                0 <= i <= n,
                dns_name_ok(server_name@),
                forall|j: int| 0 <= j < server_name@.len() ==> is_dns_byte(
                    #[trigger] server_name@[j],
                ),
                added_rep(orig, server_name@, certified_key) == orig.take(i as int) + added_rep(
                    orig.skip(i as int),
                    server_name@,
                    certified_key,
                ),
                forall|j: int| 0 <= j < i ==> !eq_fold(#[trigger] orig[j].0, server_name@),
            decreases n - i,
        {
            proof {
                assert(orig.skip(i as int)[0] == orig[i as int]);
                assert(orig[i as int].0 == self.names@[i as int]@);
            }
            if eq_ignore_case(self.names[i].as_slice(), server_name.as_slice()) {
                let ghost rest = orig.skip(i as int);
                self.keys.set(i, certified_key);
                proof {
                    assert(added_rep(rest, server_name@, certified_key) == seq![
                        (rest[0].0, certified_key),
                    ] + rest.drop_first());
                    assert(rest.drop_first() =~= orig.skip(i as int + 1));
                    assert(self@ =~= orig.take(i as int) + (seq![
                        (orig[i as int].0, certified_key),
                    ] + orig.skip(i as int + 1)));
                }
                return Ok(());
            }
            proof {
                let rest = orig.skip(i as int);
                assert(added_rep(rest, server_name@, certified_key) == seq![rest[0]] + added_rep(
                    rest.drop_first(),
                    server_name@,
                    certified_key,
                ));
                assert(rest.drop_first() =~= orig.skip(i as int + 1));
                assert(orig.take(i as int) + (seq![orig[i as int]] + added_rep(
                    orig.skip(i as int + 1),
                    server_name@,
                    certified_key,
                )) =~= orig.take(i as int + 1) + added_rep(
                    orig.skip(i as int + 1),
                    server_name@,
                    certified_key,
                ));
            }
            i += 1;
        }
        proof {
            assert(orig.skip(n as int) =~= Seq::<(Seq<u8>, K)>::empty());
        }
        self.names.push(server_name);
        self.keys.push(certified_key);
        proof {
            assert(self@ =~= orig.take(n as int) + added_rep(
                orig.skip(n as int),
                server_name@,
                certified_key,
            ));
        }
        Ok(())
    }

    /// The key to present for a handshake: looked up by the SNI name,
    /// case-insensitively.  No SNI, or no entry of that name, is a
    /// miss (and the handshake will fail).
    pub fn resolve(&self, sni: Option<&Vec<u8>>) -> (r: Option<&K>)
        requires
            self.wf(),
        ensures
            match sni {
                None => r is None,
                Some(name) => match r {
                    Some(k) => resolve_rep(self@, name@) == Some(*k),
                    None => resolve_rep(self@, name@) is None,
                },
            },
    {
        let name = match sni {
            Some(name) => name,
            None => {
                return None;
            },
        };
        let n = self.names.len();
        let mut i: usize = 0;
        proof {
            assert(self@.skip(0) =~= self@);
        }
        while i < n
            invariant
                n == self.names@.len(),
                self.wf(),
                sni == Some(name),
                0 <= i <= n,
                resolve_rep(self@, name@) == resolve_rep(self@.skip(i as int), name@),
            decreases n - i,
        {
            proof {
                assert(self@.skip(i as int)[0] == self@[i as int]);
            }
            if eq_ignore_case(self.names[i].as_slice(), name.as_slice()) {
                return Some(&self.keys[i]);
            }
            proof {
                assert(self@.skip(i as int).drop_first() =~= self@.skip(i as int + 1));
            }
            i += 1;
        }
        proof {
            assert(self@.skip(n as int) =~= Seq::<(Seq<u8>, K)>::empty());
        }
        None
    }
}


/// The resolver entries a manager holds for `listen`, if any.
pub open spec fn acceptor_rep<K>(
    entries: Seq<(Addr, Seq<(Seq<u8>, K)>)>,
    listen: Addr,
) -> Option<Seq<(Seq<u8>, K)>>
    decreases entries.len(),
{
    if entries.len() == 0 {
        None
    } else if entries[0].0 == listen {
        Some(entries[0].1)
    } else {
        acceptor_rep(entries.drop_first(), listen)
    }
}

/// The manager's entries after registering `key` under `name` for
/// `listen`: the address's resolver gains the key, a first key for an
/// address brings its resolver into being.
pub open spec fn manager_added_rep<K>(
    entries: Seq<(Addr, Seq<(Seq<u8>, K)>)>,
    listen: Addr,
    name: Seq<u8>,
    key: K,
) -> Seq<(Addr, Seq<(Seq<u8>, K)>)>
    decreases entries.len(),
{
    if entries.len() == 0 {
        seq![(listen, added_rep(Seq::empty(), name, key))]
    } else if entries[0].0 == listen {
        seq![(listen, added_rep(entries[0].1, name, key))] + entries.drop_first()
    } else {
        seq![entries[0]] + manager_added_rep(entries.drop_first(), listen, name, key)
    }
}

/// Per listen address, the TLS state: the certificate resolver the
/// handshake consults.  An address with no entry here is served as
/// plain HTTP.
pub struct TlsManager<K> {
    pub addrs: Vec<Addr>,
    pub resolvers: Vec<CertResolver<K>>,
}

impl<K> View for TlsManager<K> {
    type V = Seq<(Addr, Seq<(Seq<u8>, K)>)>;

    open spec fn view(&self) -> Seq<(Addr, Seq<(Seq<u8>, K)>)> {
        Seq::new(self.addrs@.len(), |i: int| (self.addrs@[i], self.resolvers@[i]@))
    }
}

impl<K> TlsManager<K> {
    /// Both columns line up, each resolver is well formed, and no
    /// address appears twice.
    pub open spec fn wf(&self) -> bool {
        &&& self.addrs@.len() == self.resolvers@.len()
        &&& forall|i: int| 0 <= i < self.resolvers@.len() ==> (#[trigger] self.resolvers@[i]).wf()
        &&& forall|i: int, j: int|
            0 <= i < j < self.addrs@.len() ==> self.addrs@[i] != self.addrs@[j]
    }

    /// A manager with no TLS state: every address is plain HTTP.
    pub fn new() -> (r: TlsManager<K>)
        ensures
            r.wf(),
            r@ =~= Seq::<(Addr, Seq<(Seq<u8>, K)>)>::empty(),
    {
        TlsManager { addrs: Vec::new(), resolvers: Vec::new() }
    }

    /// Registers `certified_key` under `server_name` for
    /// `listen_addr`; the first key of an address brings its resolver
    /// (and with it the address's TLS acceptor) into being.  Rejects
    /// an invalid DNS name, leaving the manager unchanged.
    pub fn add_certified_key(
        &mut self,
        listen_addr: Addr,
        server_name: Vec<u8>,
        certified_key: K,
    ) -> (r: Result<(), BadDnsName>)
        requires
            old(self).wf(),
        ensures
            final(self).wf(),
            r is Ok <==> dns_name_ok(server_name@),
            (exists|i: int|
                0 <= i < server_name@.len() && !is_dns_byte(server_name@[i])) ==> r is Err,
            r is Ok ==> final(self)@ == manager_added_rep(
                old(self)@,
                listen_addr,
                server_name@,
                certified_key,
            ),
            r is Err ==> final(self)@ == old(self)@,
    {
        let ghost orig = self@;
        let ghost nm = server_name@;
        let n = self.addrs.len();
        let mut i: usize = 0;
        proof {
            assert(orig.skip(0) =~= orig);
            assert(orig.take(0) + manager_added_rep(orig.skip(0), listen_addr, nm, certified_key)
                =~= manager_added_rep(orig, listen_addr, nm, certified_key));
        }
        while i < n
            invariant
                n == self.addrs@.len(),
                orig == self@,
                orig == old(self)@,
                self.wf(),
                nm == server_name@,
                0 <= i <= n,
                manager_added_rep(orig, listen_addr, nm, certified_key) == orig.take(i as int)
                    + manager_added_rep(orig.skip(i as int), listen_addr, nm, certified_key),
                forall|j: int| 0 <= j < i ==> orig[j].0 != listen_addr,
            decreases n - i,
        {
            proof {
                assert(orig.skip(i as int)[0] == orig[i as int]);
                assert(orig[i as int].0 == self.addrs@[i as int]);
            }
            if self.addrs[i] == listen_addr {
                let ghost rest = orig.skip(i as int);
                let ghost inner = orig[i as int].1;
                let resolver = &mut self.resolvers[i];
                let r = resolver.add_certified_key(server_name, certified_key);
                proof {
                    assert(rest.drop_first() =~= orig.skip(i as int + 1));
                    assert(manager_added_rep(rest, listen_addr, nm, certified_key) == seq![
                        (listen_addr, added_rep(inner, nm, certified_key)),
                    ] + rest.drop_first());
                }
                match r {
                    Ok(()) => {
                        proof {
                            assert(self@ =~= orig.take(i as int) + (seq![
                                (listen_addr, added_rep(inner, nm, certified_key)),
                            ] + orig.skip(i as int + 1)));
                        }
                        return Ok(());
                    },
                    Err(e) => {
                        proof {
                            assert(self@ =~= orig);
                        }
                        return Err(e);
                    },
                }
            }
            proof {
                let rest = orig.skip(i as int);
                assert(manager_added_rep(rest, listen_addr, nm, certified_key) == seq![rest[0]]
                    + manager_added_rep(rest.drop_first(), listen_addr, nm, certified_key));
                assert(rest.drop_first() =~= orig.skip(i as int + 1));
                assert(orig.take(i as int) + (seq![orig[i as int]] + manager_added_rep(
                    orig.skip(i as int + 1),
                    listen_addr,
                    nm,
                    certified_key,
                )) =~= orig.take(i as int + 1) + manager_added_rep(
                    orig.skip(i as int + 1),
                    listen_addr,
                    nm,
                    certified_key,
                ));
            }
            i += 1;
        }
        proof {
            assert forall|j: int| 0 <= j < n implies self.addrs@[j] != listen_addr by {
                assert(orig[j].0 == self.addrs@[j]);
            }
        }
        let mut resolver = CertResolver::new();
        let r = resolver.add_certified_key(server_name, certified_key);
        match r {
            Ok(()) => {
                self.addrs.push(listen_addr);
                self.resolvers.push(resolver);
                proof {
                    assert(orig.skip(n as int) =~= Seq::<(Addr, Seq<(Seq<u8>, K)>)>::empty());
                    assert(self@ =~= orig.take(n as int) + manager_added_rep(
                        orig.skip(n as int),
                        listen_addr,
                        nm,
                        certified_key,
                    ));
                }
                Ok(())
            },
            Err(e) => {
                proof {
                    assert(self@ =~= orig);
                }
                Err(e)
            },
        }
    }

    /// The certificate resolver for `listen_addr`, if any key was ever
    /// registered there: the sole signal that the address terminates
    /// TLS.  `None` means plain HTTP.
    pub fn acceptor(&self, listen_addr: &Addr) -> (r: Option<&CertResolver<K>>)
        requires
            self.wf(),
        ensures
            match r {
                Some(res) => acceptor_rep(self@, *listen_addr) == Some(res@) && res.wf(),
                None => acceptor_rep(self@, *listen_addr) is None,
            },
    {
        let n = self.addrs.len();
        let mut i: usize = 0;
        proof {
            assert(self@.skip(0) =~= self@);
        }
        while i < n
            invariant
                n == self.addrs@.len(),
                self.wf(),
                0 <= i <= n,
                acceptor_rep(self@, *listen_addr) == acceptor_rep(self@.skip(i as int), *listen_addr),
            decreases n - i,
        {
            proof {
                assert(self@.skip(i as int)[0] == self@[i as int]);
            }
            if self.addrs[i] == *listen_addr {
                return Some(&self.resolvers[i]);
            }
            proof {
                assert(self@.skip(i as int).drop_first() =~= self@.skip(i as int + 1));
            }
            i += 1;
        }
        proof {
            assert(self@.skip(n as int) =~= Seq::<(Addr, Seq<(Seq<u8>, K)>)>::empty());
        }
        None
    }
}

} // verus!
