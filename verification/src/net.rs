//! Socket addresses as plain values, and the textual rendering used for
//! the `Forwarded` header: IPv4 rendered bare (`1.2.3.4:80`), IPv6
//! bracketed and quoted (`"[2001:db8::1]:80"`), with the leftmost
//! longest run of two or more zero groups shortened to `::` and an
//! IPv4-mapped address rendered with its dotted quad.

use vstd::prelude::*;

verus! {

/// A socket address: an IP address and a port.
#[derive(Clone, Copy, Debug, PartialEq, Eq, Structural)]
pub enum Addr {
    V4 { a: u8, b: u8, c: u8, d: u8, port: u16 },
    V6 { g0: u16, g1: u16, g2: u16, g3: u16, g4: u16, g5: u16, g6: u16, g7: u16, port: u16 },
}

/// Decimal digits of `n`, most significant first.
pub open spec fn dec_rep(n: nat) -> Seq<u8>
    decreases n,
{
    if n < 10 {
        seq![(48 + n) as u8]
    } else {
        dec_rep(n / 10).push((48 + n % 10) as u8)
    }
}

/// Lower-case hexadecimal digits of `n`, most significant first.
pub open spec fn hex_rep(n: nat) -> Seq<u8>
    decreases n,
{
    if n < 16 {
        seq![hex_digit(n)]
    } else {
        hex_rep(n / 16).push(hex_digit(n % 16))
    }
}

/// The byte of one lower-case hexadecimal digit.
pub open spec fn hex_digit(n: nat) -> u8 {
    if n < 10 {
        (48 + n) as u8
    } else {
        (87 + n) as u8
    }
}

/// How many consecutive zero groups stand at `i`.
pub open spec fn run_len_at(gs: Seq<u16>, i: int) -> int
    decreases gs.len() - i,
{
    if i < 0 || i >= gs.len() || gs[i] != 0 {
        0
    } else {
        1 + run_len_at(gs, i + 1)
    }
}

/// The leftmost longest zero run at or after `i`: its start and its
/// length (a run of equal length further right does not displace it).
pub open spec fn best_run_from(gs: Seq<u16>, i: int) -> (int, int)
    decreases gs.len() - i,
{
    if i >= gs.len() {
        (0, 0)
    } else {
        let here = run_len_at(gs, i);
        let rest = best_run_from(gs, i + 1);
        if here >= rest.1 {
            (i, here)
        } else {
            rest
        }
    }
}

/// Hexadecimal groups joined with `:`.
pub open spec fn join_hex(gs: Seq<u16>) -> Seq<u8>
    decreases gs.len(),
{
    if gs.len() == 0 {
        Seq::empty()
    } else if gs.len() == 1 {
        hex_rep(gs[0] as nat)
    } else {
        join_hex(gs.drop_last()) + seq![58u8] + hex_rep(gs.last() as nat)
    }
}

/// An IPv4-mapped IPv6 address: `::ffff:a.b.c.d`.
pub open spec fn v4_mapped(gs: Seq<u16>) -> bool {
    &&& gs.len() == 8
    &&& gs[0] == 0
    &&& gs[1] == 0
    &&& gs[2] == 0
    &&& gs[3] == 0
    &&& gs[4] == 0
    &&& gs[5] == 0xffff
}

/// Two groups rendered as an IPv4 dotted quad.
pub open spec fn dotted_quad(hi: u16, lo: u16) -> Seq<u8> {
    dec_rep((hi / 256) as nat) + seq![46u8] + dec_rep((hi % 256) as nat) + seq![46u8] + dec_rep(
        (lo / 256) as nat,
    ) + seq![46u8] + dec_rep((lo % 256) as nat)
}

/// The text of an IPv6 address: an IPv4-mapped address keeps its
/// dotted quad; otherwise the leftmost longest run of two or more
/// zero groups becomes `::`.
pub open spec fn v6_text(gs: Seq<u16>) -> Seq<u8> {
    if v4_mapped(gs) {
        seq![58u8, 58u8, 102u8, 102u8, 102u8, 102u8, 58u8] + dotted_quad(gs[6], gs[7])
    } else {
        let run = best_run_from(gs, 0);
        if run.1 >= 2 {
            join_hex(gs.take(run.0)) + seq![58u8, 58u8] + join_hex(gs.skip(run.0 + run.1))
        } else {
            join_hex(gs)
        }
    }
}

/// The eight groups of an IPv6 address, in order.
pub open spec fn v6_groups(
    g0: u16, g1: u16, g2: u16, g3: u16, g4: u16, g5: u16, g6: u16, g7: u16,
) -> Seq<u16> {
    seq![g0, g1, g2, g3, g4, g5, g6, g7]
}

/// The textual rendering of an address, as it stands in `Forwarded`.
pub open spec fn addr_rep(addr: Addr) -> Seq<u8> {
    match addr {
        Addr::V4 { a, b, c, d, port } => dec_rep(a as nat) + seq![46u8] + dec_rep(b as nat)
            + seq![46u8] + dec_rep(c as nat) + seq![46u8] + dec_rep(d as nat) + seq![58u8]
            + dec_rep(port as nat),
        Addr::V6 { g0, g1, g2, g3, g4, g5, g6, g7, port } => seq![34u8, 91u8] + v6_text(
            v6_groups(g0, g1, g2, g3, g4, g5, g6, g7),
        ) + seq![93u8, 58u8] + dec_rep(port as nat) + seq![34u8],
    }
}

/// The whole `Forwarded` header value for a client address: `for=` and
/// the rendered address.
pub open spec fn forwarded_value(addr: Addr) -> Seq<u8> {
    seq![102u8, 111u8, 114u8, 61u8] + addr_rep(addr)
}

/// Appends the decimal digits of `n` to `out`.
fn push_dec(out: &mut Vec<u8>, n: u16)
    ensures
        final(out)@ == old(out)@ + dec_rep(n as nat),
    decreases n,
{
    if n < 10 {
        out.push(48 + (n as u8));
        assert(final(out)@ =~= old(out)@ + dec_rep(n as nat));
    } else {
        let ghost mid = old(out)@ + dec_rep((n / 10) as nat);
        push_dec(out, n / 10);
        out.push(48 + ((n % 10) as u8));
        assert(final(out)@ =~= old(out)@ + dec_rep(n as nat));
    }
}

/// Appends the lower-case hexadecimal digits of `n` to `out`.
fn push_hex(out: &mut Vec<u8>, n: u16)
    ensures
        final(out)@ == old(out)@ + hex_rep(n as nat),
    decreases n,
{
    if n < 16 {
        let d: u8 = if n < 10 { 48 + (n as u8) } else { 87 + (n as u8) };
        out.push(d);
        assert(final(out)@ =~= old(out)@ + hex_rep(n as nat));
    } else {
        push_hex(out, n / 16);
        let r = n % 16;
        let d: u8 = if r < 10 { 48 + (r as u8) } else { 87 + (r as u8) };
        out.push(d);
        assert(final(out)@ =~= old(out)@ + hex_rep(n as nat));
    }
}


/// A zero run fits inside the group list.
proof fn lemma_run_len_bound(gs: Seq<u16>, i: int)
    requires
        0 <= i <= gs.len(),
    ensures
        0 <= run_len_at(gs, i) <= gs.len() - i,
    decreases gs.len() - i,
{
    if i < gs.len() && gs[i] == 0 {
        lemma_run_len_bound(gs, i + 1);
    }
}

/// The leftmost longest zero run lies inside the group list.
proof fn lemma_best_run_bounds(gs: Seq<u16>, i: int)
    requires
        0 <= i <= gs.len(),
    ensures
        0 <= best_run_from(gs, i).0 <= gs.len(),
        0 <= best_run_from(gs, i).1 <= gs.len() - best_run_from(gs, i).0,
    decreases gs.len() - i,
{
    if i < gs.len() {
        lemma_run_len_bound(gs, i);
        lemma_best_run_bounds(gs, i + 1);
    }
}

/// Appends groups `a..b`, joined with `:`.
fn push_join(out: &mut Vec<u8>, gs: &[u16], a: usize, b: usize)
    requires
        a <= b <= gs@.len(),
    ensures
        final(out)@ == old(out)@ + join_hex(gs@.subrange(a as int, b as int)),
    decreases b - a,
{
    let mut i: usize = a;
    proof {
        assert(gs@.subrange(a as int, a as int) =~= Seq::<u16>::empty());
        assert(out@ =~= old(out)@ + join_hex(gs@.subrange(a as int, a as int)));
    }
    while i < b
        invariant
            a <= i <= b <= gs@.len(),
            out@ == old(out)@ + join_hex(gs@.subrange(a as int, i as int)),
        decreases b - i,
    {
        if i > a {
            out.push(58);
        }
        push_hex(out, gs[i]);
        proof {
            let sub = gs@.subrange(a as int, i as int + 1);
            assert(sub.len() == i + 1 - a);
            assert(sub.last() == gs@[i as int]);
            if i == a {
                assert(join_hex(sub) == hex_rep(gs@[i as int] as nat));
            } else {
                assert(sub.drop_last() =~= gs@.subrange(a as int, i as int));
            }
            assert(out@ =~= old(out)@ + join_hex(sub));
        }
        i += 1;
    }
}

/// Appends the text of the eight groups of an IPv6 address.
fn push_v6(out: &mut Vec<u8>, gs: &[u16])
    requires
        gs@.len() == 8,
    ensures
        final(out)@ == old(out)@ + v6_text(gs@),
{
    let ghost g = gs@;
    if gs[0] == 0 && gs[1] == 0 && gs[2] == 0 && gs[3] == 0 && gs[4] == 0 && gs[5] == 0xffff {
        out.push(58);
        out.push(58);
        out.push(102);
        out.push(102);
        out.push(102);
        out.push(102);
        out.push(58);
        push_dec(out, gs[6] / 256);
        out.push(46);
        push_dec(out, gs[6] % 256);
        out.push(46);
        push_dec(out, gs[7] / 256);
        out.push(46);
        push_dec(out, gs[7] % 256);
        proof {
            assert(v4_mapped(g));
            assert(final(out)@ =~= old(out)@ + v6_text(g));
        }
        return;
    }
    let mut rl: Vec<usize> = Vec::new();
    let mut k: usize = 0;
    while k < 9
        invariant
            rl@.len() == k,
            0 <= k <= 9,
            forall|j: int| 0 <= j < k ==> rl@[j] == 0,
        decreases 9 - k,
    {
        rl.push(0);
        k += 1;
    }
    let mut i: usize = 8;
    while i > 0
        invariant
            g == gs@,
            g.len() == 8,
            rl@.len() == 9,
            0 <= i <= 8,
            forall|j: int| i <= j <= 8 ==> rl@[j] == run_len_at(g, j),
        decreases i,
    {
        i -= 1;
        proof {
            lemma_run_len_bound(g, i + 1);
        }
        let r: usize = if gs[i] != 0 {
            0
        } else {
            1 + rl[i + 1]
        };
        rl.set(i, r);
    }
    let mut bs: usize = 0;
    let mut bl: usize = 0;
    let mut i: usize = 8;
    while i > 0
        invariant
            g == gs@,
            g.len() == 8,
            rl@.len() == 9,
            forall|j: int| 0 <= j <= 8 ==> rl@[j] == run_len_at(g, j),
            0 <= i <= 8,
            bs as int == best_run_from(g, i as int).0,
            bl as int == best_run_from(g, i as int).1,
        decreases i,
    {
        i -= 1;
        let here = rl[i];
        if here >= bl {
            bs = i;
            bl = here;
        }
    }
    proof {
        lemma_best_run_bounds(g, 0);
    }
    if bl >= 2 {
        push_join(out, gs, 0, bs);
        out.push(58);
        out.push(58);
        push_join(out, gs, bs + bl, 8);
        proof {
            assert(g.subrange(0, bs as int) =~= g.take(bs as int));
            assert(g.subrange(bs as int + bl as int, 8) =~= g.skip(bs as int + bl as int));
            assert(final(out)@ =~= old(out)@ + v6_text(g));
        }
    } else {
        push_join(out, gs, 0, 8);
        proof {
            assert(g.subrange(0, 8) =~= g);
            assert(final(out)@ =~= old(out)@ + v6_text(g));
        }
    }
}

/// Renders the `Forwarded` header value for a client address.
pub fn render_forwarded(addr: &Addr) -> (r: Vec<u8>)
    ensures
        r@ == forwarded_value(*addr),
{
    let mut out: Vec<u8> = Vec::new();
    out.push(102);
    out.push(111);
    out.push(114);
    out.push(61);
    assert(out@ =~= seq![102u8, 111u8, 114u8, 61u8]);
    match addr {
        Addr::V4 { a, b, c, d, port } => {
            push_dec(&mut out, *a as u16);
            out.push(46);
            push_dec(&mut out, *b as u16);
            out.push(46);
            push_dec(&mut out, *c as u16);
            out.push(46);
            push_dec(&mut out, *d as u16);
            out.push(58);
            push_dec(&mut out, *port);
            assert(out@ =~= forwarded_value(*addr));
        },
        Addr::V6 { g0, g1, g2, g3, g4, g5, g6, g7, port } => {
            out.push(34);
            out.push(91);
            let groups: [u16; 8] = [*g0, *g1, *g2, *g3, *g4, *g5, *g6, *g7];
            proof {
                assert(groups@ =~= v6_groups(*g0, *g1, *g2, *g3, *g4, *g5, *g6, *g7));
            }
            push_v6(&mut out, groups.as_slice());
            out.push(93);
            out.push(58);
            push_dec(&mut out, *port);
            out.push(34);
            assert(out@ =~= forwarded_value(*addr));
        },
    }
    out
}

} // verus!
