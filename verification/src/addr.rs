//! Internet addresses: their order, their text, and the blocks that are not
//! reachable on the public Internet.

use vstd::prelude::*;

use crate::text::{push_decimal, push_numeral};

verus! {

/// An IPv4 or IPv6 address, as the number that its bits spell in network order.
#[derive(Clone, Copy, Debug, PartialEq, Eq, Structural)]
pub enum IpAddr {
    V4(u32),
    V6(u128),
}

/// The place of an address in the order of addresses: every IPv4 address comes
/// before every IPv6 address, and within a family the numbers decide.
pub open spec fn rank(ip: IpAddr) -> int {
    match ip {
        IpAddr::V4(bits) => bits as int,
        IpAddr::V6(bits) => 0x1_0000_0000 + bits,
    }
}

/// Addresses in strictly ascending order, so that none occurs twice.
pub open spec fn ascending(ips: Seq<IpAddr>) -> bool {
    forall|i: int, j: int| 0 <= i < j < ips.len() ==> rank(#[trigger] ips[i]) < rank(#[trigger] ips[j])
}

/// The four octets of an IPv4 address, first to last.
pub open spec fn octets(bits: u32) -> Seq<u8> {
    seq![
        (bits / 0x100_0000) as u8,
        (bits / 0x1_0000 % 0x100) as u8,
        (bits / 0x100 % 0x100) as u8,
        (bits % 0x100) as u8,
    ]
}

/// The eight segments of an IPv6 address, first to last.
pub open spec fn segments(bits: u128) -> Seq<u16> {
    seq![
        (bits / 0x1_0000_0000_0000_0000_0000_0000_0000) as u16,
        (bits / 0x1_0000_0000_0000_0000_0000_0000 % 0x1_0000) as u16,
        (bits / 0x1_0000_0000_0000_0000_0000 % 0x1_0000) as u16,
        (bits / 0x1_0000_0000_0000_0000 % 0x1_0000) as u16,
        (bits / 0x1_0000_0000_0000 % 0x1_0000) as u16,
        (bits / 0x1_0000_0000 % 0x1_0000) as u16,
        (bits / 0x1_0000 % 0x1_0000) as u16,
        (bits % 0x1_0000) as u16,
    ]
}

/// Dotted decimal notation.
pub open spec fn v4_text(bits: u32) -> Seq<char> {
    let o = octets(bits);
    crate::text::decimal(o[0] as nat) + "."@ + crate::text::decimal(o[1] as nat) + "."@
        + crate::text::decimal(o[2] as nat) + "."@ + crate::text::decimal(o[3] as nat)
}

/// Segments in hexadecimal with a colon between each two.
pub open spec fn colon_joined(s: Seq<u16>) -> Seq<char>
    decreases s.len(),
{
    if s.len() == 0 {
        Seq::empty()
    } else if s.len() == 1 {
        crate::text::numeral(s[0] as nat, 16)
    } else {
        colon_joined(s.drop_last()) + ":"@ + crate::text::numeral(s.last() as nat, 16)
    }
}

/// The number of zero segments that stand in a row from position `i` on.
pub open spec fn zeros_from(s: Seq<u16>, i: int) -> nat
    decreases s.len() - i,
{
    if 0 <= i < s.len() && s[i] == 0 {
        1 + zeros_from(s, i + 1)
    } else {
        0
    }
}

/// Position `i` begins the longest run of zero segments, the first of those
/// where several are equally long.
pub open spec fn is_gap(s: Seq<u16>, i: int) -> bool {
    &&& 0 <= i < s.len()
    &&& forall|j: int| #![trigger zeros_from(s, j)]
        0 <= j < s.len() ==> zeros_from(s, j) <= zeros_from(s, i)
    &&& forall|j: int| #![trigger zeros_from(s, j)]
        0 <= j < i ==> zeros_from(s, j) < zeros_from(s, i)
}

/// The canonical text of an IPv6 address: an IPv4-mapped address ends in
/// dotted decimal; of any other the longest run of at least two zero segments
/// is written as `::`.
pub open spec fn v6_text(bits: u128) -> Seq<char> {
    if bits / 0x1_0000_0000 == 0xffff {
        "::ffff:"@ + v4_text((bits % 0x1_0000_0000) as u32)
    } else {
        let s = segments(bits);
        let gap = choose|i: int| is_gap(s, i);
        let run = zeros_from(s, gap) as int;
        if run >= 2 {
            colon_joined(s.take(gap)) + "::"@ + colon_joined(s.skip(gap + run))
        } else {
            colon_joined(s)
        }
    }
}

/// The text of an address.
pub open spec fn ip_text(ip: IpAddr) -> Seq<char> {
    match ip {
        IpAddr::V4(bits) => v4_text(bits),
        IpAddr::V6(bits) => v6_text(bits),
    }
}

/// The IPv4 address whose octets are `a`, `b`, `c` and `d`, as a number.
pub open spec fn v4(a: int, b: int, c: int, d: int) -> int {
    a * 0x100_0000 + b * 0x1_0000 + c * 0x100 + d
}

/// The `size` numbers from `base` on.
pub open spec fn in_block(n: int, base: int, size: int) -> bool {
    base <= n < base + size
}

/// The addresses that are not on the public Internet.
pub open spec fn non_public(ip: IpAddr) -> bool {
    match ip {
        IpAddr::V4(bits) => {
            let n = bits as int;
            // Loopback, 127.0.0.0/8.
            ||| in_block(n, v4(127, 0, 0, 0), 0x100_0000)
            // Private use: 10.0.0.0/8, 172.16.0.0/12, 192.168.0.0/16.
            ||| in_block(n, v4(10, 0, 0, 0), 0x100_0000)
            ||| in_block(n, v4(172, 16, 0, 0), 0x10_0000)
            ||| in_block(n, v4(192, 168, 0, 0), 0x1_0000)
            // Link-local, 169.254.0.0/16.
            ||| in_block(n, v4(169, 254, 0, 0), 0x1_0000)
            // Broadcast and unspecified.
            ||| n == v4(255, 255, 255, 255)
            ||| n == v4(0, 0, 0, 0)
            // Shared by the customers of a carrier, 100.64.0.0/10.
            ||| in_block(n, v4(100, 64, 0, 0), 0x40_0000)
            // Documentation: 192.0.2.0/24, 198.51.100.0/24, 203.0.113.0/24.
            ||| in_block(n, v4(192, 0, 2, 0), 0x100)
            ||| in_block(n, v4(198, 51, 100, 0), 0x100)
            ||| in_block(n, v4(203, 0, 113, 0), 0x100)
        },
        IpAddr::V6(bits) => {
            // Loopback and unspecified.
            ||| bits == 1
            ||| bits == 0
            // Unique local, fc00::/7.
            ||| 0xfc00_0000_0000_0000_0000_0000_0000_0000 <= bits
                < 0xfe00_0000_0000_0000_0000_0000_0000_0000
            // Link-local, fe80::/10.
            ||| 0xfe80_0000_0000_0000_0000_0000_0000_0000 <= bits
                < 0xfec0_0000_0000_0000_0000_0000_0000_0000
            // Documentation, 2001:db8::/32.
            ||| 0x2001_0db8_0000_0000_0000_0000_0000_0000 <= bits
                < 0x2001_0db9_0000_0000_0000_0000_0000_0000
        },
    }
}

/// An address is known by its place in the order.
pub proof fn rank_is_injective(a: IpAddr, b: IpAddr)
    requires
        rank(a) == rank(b),
    ensures
        a == b,
{
}

/// An ascending listing holds no address twice.
pub proof fn ascending_has_no_duplicates(ips: Seq<IpAddr>)
    requires
        ascending(ips),
    ensures
        ips.no_duplicates(),
{
    assert forall|i: int, j: int| 0 <= i < ips.len() && 0 <= j < ips.len() && i != j implies ips[i]
        != ips[j] by {
        if i < j {
            assert(rank(ips[i]) < rank(ips[j]));
        } else {
            assert(rank(ips[j]) < rank(ips[i]));
        }
    }
}

/// A set of addresses has only one ascending listing.
pub proof fn ascending_listing_is_unique(a: Seq<IpAddr>, b: Seq<IpAddr>)
    requires
        ascending(a),
        ascending(b),
        a.to_set() == b.to_set(),
    ensures
        a == b,
{
    lemma_same_prefix(a, b, a.len() as int);
    lemma_same_prefix(b, a, b.len() as int);
    assert(a =~= b);
}

proof fn lemma_same_prefix(a: Seq<IpAddr>, b: Seq<IpAddr>, n: int)
    requires
        ascending(a),
        ascending(b),
        a.to_set() == b.to_set(),
        0 <= n <= a.len(),
    ensures
        n <= b.len(),
        forall|i: int| 0 <= i < n ==> #[trigger] a[i] == b[i],
    decreases n,
{
    if n > 0 {
        lemma_same_prefix(a, b, n - 1);
        assert(a.to_set().contains(a[n - 1]));
        assert(b.contains(a[n - 1]));
        let k = choose|k: int| 0 <= k < b.len() && b[k] == a[n - 1];
        if k < n - 1 {
            assert(a[k] == b[k]);
            assert(rank(a[k]) < rank(a[n - 1]));
        }
        assert(b.to_set().contains(b[n - 1]));
        assert(a.contains(b[n - 1]));
        let m = choose|m: int| 0 <= m < a.len() && a[m] == b[n - 1];
        if m < n - 1 {
            assert(a[m] == b[m]);
            assert(rank(b[m]) < rank(b[n - 1]));
        }
        if k > n - 1 {
            assert(rank(b[n - 1]) < rank(b[k]));
            if m > n - 1 {
                assert(rank(a[n - 1]) < rank(a[m]));
            }
        }
    }
}

fn split_octets(bits: u32) -> (r: Vec<u8>)
    ensures
        r@ == octets(bits),
{
    let mut r: Vec<u8> = Vec::new();
    r.push((bits / 0x100_0000) as u8);
    r.push((bits / 0x1_0000 % 0x100) as u8);
    r.push((bits / 0x100 % 0x100) as u8);
    r.push((bits % 0x100) as u8);
    assert(r@ =~= octets(bits));
    r
}

fn split_segments(bits: u128) -> (r: Vec<u16>)
    ensures
        r@ == segments(bits),
{
    let mut r: Vec<u16> = Vec::new();
    r.push((bits / 0x1_0000_0000_0000_0000_0000_0000_0000) as u16);
    r.push((bits / 0x1_0000_0000_0000_0000_0000_0000 % 0x1_0000) as u16);
    r.push((bits / 0x1_0000_0000_0000_0000_0000 % 0x1_0000) as u16);
    r.push((bits / 0x1_0000_0000_0000_0000 % 0x1_0000) as u16);
    r.push((bits / 0x1_0000_0000_0000 % 0x1_0000) as u16);
    r.push((bits / 0x1_0000_0000 % 0x1_0000) as u16);
    r.push((bits / 0x1_0000 % 0x1_0000) as u16);
    r.push((bits % 0x1_0000) as u16);
    assert(r@ =~= segments(bits));
    r
}

fn push_v4(out: &mut String, bits: u32)
    ensures
        final(out)@ == old(out)@ + v4_text(bits),
{
    let o: Vec<u8> = split_octets(bits);
    push_decimal(out, o[0] as u128);
    out.append(".");
    push_decimal(out, o[1] as u128);
    out.append(".");
    push_decimal(out, o[2] as u128);
    out.append(".");
    push_decimal(out, o[3] as u128);
    assert(out@ =~= old(out)@ + v4_text(bits));
}

fn push_colon_joined(out: &mut String, s: &Vec<u16>, from: usize, to: usize)
    requires
        from <= to <= s@.len(),
    ensures
        final(out)@ == old(out)@ + colon_joined(s@.subrange(from as int, to as int)),
{
    let mut i: usize = from;
    assert(out@ =~= old(out)@ + colon_joined(s@.subrange(from as int, from as int)));
    while i < to
        invariant
            from <= i <= to <= s@.len(),
            out@ == old(out)@ + colon_joined(s@.subrange(from as int, i as int)),
        decreases to - i,
    {
        let ghost longer = s@.subrange(from as int, i + 1);
        assert(longer.drop_last() =~= s@.subrange(from as int, i as int));
        if i > from {
            out.append(":");
        } else {
            assert(longer.len() == 1);
        }
        push_numeral(out, s[i] as u128, 16);
        assert(out@ =~= old(out)@ + colon_joined(longer));
        i = i + 1;
    }
}

/// The position and the length of the longest run of zero segments.
fn find_gap(s: &Vec<u16>) -> (r: (usize, usize))
    requires
        0 < s@.len(),
    ensures
        is_gap(s@, r.0 as int),
        r.1 == zeros_from(s@, r.0 as int),
        r.0 + r.1 <= s@.len(),
{
    let n: usize = s.len();
    let mut i: usize = n - 1;
    let mut run: usize = if s[i] == 0 {
        1
    } else {
        0
    };
    assert(zeros_from(s@, s@.len() as int) == 0);
    assert(run == zeros_from(s@, i as int));
    let mut start: usize = i;
    let mut len: usize = run;
    while 0 < i
        invariant
            n == s@.len(),
            i < n,
            i + run <= n,
            i <= start < s@.len(),
            start + len <= s@.len(),
            run == zeros_from(s@, i as int),
            len == zeros_from(s@, start as int),
            forall|j: int| #![trigger zeros_from(s@, j)]
                i <= j < s@.len() ==> zeros_from(s@, j) <= len,
            forall|j: int| #![trigger zeros_from(s@, j)]
                i <= j < start ==> zeros_from(s@, j) < len,
        decreases i,
    {
        i = i - 1;
        if s[i] == 0 {
            run = run + 1;
        } else {
            run = 0;
        }
        assert(run == zeros_from(s@, i as int));
        if run >= len {
            start = i;
            len = run;
        }
    }
    (start, len)
}

proof fn lemma_gap_unique(s: Seq<u16>, i: int, j: int)
    requires
        is_gap(s, i),
        is_gap(s, j),
    ensures
        i == j,
{
    assert(zeros_from(s, i) <= zeros_from(s, j));
    assert(zeros_from(s, j) <= zeros_from(s, i));
}

fn push_v6(out: &mut String, bits: u128)
    ensures
        final(out)@ == old(out)@ + v6_text(bits),
{
    if bits / 0x1_0000_0000 == 0xffff {
        out.append("::ffff:");
        push_v4(out, (bits % 0x1_0000_0000) as u32);
        assert(out@ =~= old(out)@ + v6_text(bits));
    } else {
        let s: Vec<u16> = split_segments(bits);
        let (gap, run) = find_gap(&s);
        proof {
            lemma_gap_unique(s@, gap as int, choose|i: int| is_gap(s@, i));
        }
        if run >= 2 {
            push_colon_joined(out, &s, 0, gap);
            out.append("::");
            push_colon_joined(out, &s, gap + run, s.len());
            assert(s@.subrange(0, gap as int) =~= s@.take(gap as int));
            assert(s@.subrange(gap + run, s@.len() as int) =~= s@.skip(gap + run));
        } else {
            push_colon_joined(out, &s, 0, s.len());
            assert(s@.subrange(0, s@.len() as int) =~= s@);
        }
        assert(out@ =~= old(out)@ + v6_text(bits));
    }
}

impl IpAddr {
    /// Tells whether this is an IPv4 address.
    pub fn is_ipv4(&self) -> (r: bool)
        ensures
            r == (*self is V4),
    {
        match self {
            IpAddr::V4(_) => true,
            IpAddr::V6(_) => false,
        }
    }

    /// Tells whether this address comes before `other` in the order of addresses.
    pub fn precedes(&self, other: &IpAddr) -> (r: bool)
        ensures
            r == (rank(*self) < rank(*other)),
    {
        match (*self, *other) {
            (IpAddr::V4(a), IpAddr::V4(b)) => a < b,
            (IpAddr::V4(_), IpAddr::V6(_)) => true,
            (IpAddr::V6(_), IpAddr::V4(_)) => false,
            (IpAddr::V6(a), IpAddr::V6(b)) => a < b,
        }
    }

    /// Writes the text of this address behind `out`.
    pub fn push_text(&self, out: &mut String)
        ensures
            final(out)@ == old(out)@ + ip_text(*self),
    {
        match *self {
            IpAddr::V4(bits) => push_v4(out, bits),
            IpAddr::V6(bits) => push_v6(out, bits),
        }
    }

    /// The text of this address.
    pub fn to_text(&self) -> (r: String)
        ensures
            r@ == ip_text(*self),
    {
        let mut out: String = String::new();
        self.push_text(&mut out);
        assert(out@ =~= ip_text(*self));
        out
    }
}

#[verifier::spinoff_prover]
fn is_non_public_v4(bits: u32) -> (r: bool)
    ensures
        r == non_public(IpAddr::V4(bits)),
{
    let a: u32 = bits / 0x100_0000;
    let low: u32 = bits % 0x100_0000;
    let b: u32 = low / 0x1_0000;
    let lower: u32 = low % 0x1_0000;
    let c: u32 = lower / 0x100;
    assert(bits == a * 0x100_0000 + low);
    assert(low == b * 0x1_0000 + lower);
    assert(c * 0x100 <= lower < c * 0x100 + 0x100);
    a == 127 || a == 10 || (a == 172 && 16 <= b && b <= 31) || (a == 192 && b == 168) || (a == 169
        && b == 254) || bits == 0xffff_ffff || bits == 0 || (a == 100 && 64 <= b && b <= 127) || (a
        == 192 && b == 0 && c == 2) || (a == 198 && b == 51 && c == 100) || (a == 203 && b == 0 && c
        == 113)
}

#[verifier::spinoff_prover]
fn is_non_public_v6(bits: u128) -> (r: bool)
    ensures
        r == non_public(IpAddr::V6(bits)),
{
    let s0: u128 = bits / 0x1_0000_0000_0000_0000_0000_0000_0000;
    let low: u128 = bits % 0x1_0000_0000_0000_0000_0000_0000_0000;
    let s1: u128 = low / 0x1_0000_0000_0000_0000_0000_0000;
    assert(bits == s0 * 0x1_0000_0000_0000_0000_0000_0000_0000 + low);
    assert(s1 * 0x1_0000_0000_0000_0000_0000_0000 <= low < s1 * 0x1_0000_0000_0000_0000_0000_0000
        + 0x1_0000_0000_0000_0000_0000_0000);
    bits == 1 || bits == 0 || (0xfc00 <= s0 && s0 <= 0xfdff) || (0xfe80 <= s0 && s0 <= 0xfebf) || (
    s0 == 0x2001 && s1 == 0x0db8)
}

/// Tells whether `ip` lies outside the public Internet.
pub fn is_non_public_ip(ip: IpAddr) -> (r: bool)
    ensures
        r == non_public(ip),
{
    match ip {
        IpAddr::V4(bits) => is_non_public_v4(bits),
        IpAddr::V6(bits) => is_non_public_v6(bits),
    }
}

/// The addresses of `ips` in ascending order, each once.
pub fn sorted_distinct(ips: &Vec<IpAddr>) -> (r: Vec<IpAddr>)
    ensures
        ascending(r@),
        r@.to_set() == ips@.to_set(),
{
    let mut out: Vec<IpAddr> = Vec::new();
    let mut i: usize = 0;
    assert(out@.to_set() =~= ips@.take(0).to_set());
    while i < ips.len()
        invariant
            i <= ips@.len(),
            ascending(out@),
            out@.to_set() == ips@.take(i as int).to_set(),
        decreases ips@.len() - i,
    {
        let ip: IpAddr = ips[i];
        let mut at: usize = 0;
        while at < out.len() && out[at].precedes(&ip)
            invariant
                at <= out@.len(),
                forall|k: int| 0 <= k < at ==> rank(#[trigger] out@[k]) < rank(ip),
            decreases out@.len() - at,
        {
            at = at + 1;
        }
        let ghost before = out@;
        if at == out.len() || ip.precedes(&out[at]) {
            out.insert(at, ip);
            assert(out@ == before.insert(at as int, ip));
            assert forall|k: int, m: int| 0 <= k < m < out@.len() implies rank(#[trigger] out@[k])
                < rank(#[trigger] out@[m]) by {
                let bk = if k < at { k } else { k - 1 };
                let bm = if m < at { m } else { m - 1 };
                if k != at && m != at {
                    assert(rank(before[bk]) < rank(before[bm]));
                } else if k == at {
                    assert(rank(before[at as int]) <= rank(before[bm]));
                } else {
                    assert(rank(before[bk]) < rank(ip));
                }
            }
            assert(out@[at as int] == ip);
            assert forall|x: IpAddr| out@.contains(x) <==> (before.contains(x) || x == ip) by {
                if before.contains(x) {
                    let k = choose|k: int| 0 <= k < before.len() && before[k] == x;
                    let m = if k < at { k } else { k + 1 };
                    assert(out@[m] == x);
                }
                if out@.contains(x) && x != ip {
                    let k = choose|k: int| 0 <= k < out@.len() && out@[k] == x;
                    let m = if k < at { k } else { k - 1 };
                    assert(before[m] == x);
                }
            }
        } else {
            proof {
                rank_is_injective(ip, out@[at as int]);
            }
            assert(before[at as int] == ip);
        }
        assert(ips@.take(i + 1) =~= ips@.take(i as int).push(ip));
        assert forall|x: IpAddr| ips@.take(i + 1).contains(x) <==> (ips@.take(i as int).contains(x) || x
            == ip) by {
            let shorter = ips@.take(i as int);
            if shorter.contains(x) {
                let k = choose|k: int| 0 <= k < shorter.len() && shorter[k] == x;
                assert(shorter.push(ip)[k] == x);
            }
            assert(shorter.push(ip)[i as int] == ip);
        }
        assert forall|x: IpAddr| before.contains(x) <==> ips@.take(i as int).contains(x) by {
            assert(before.to_set().contains(x) == ips@.take(i as int).to_set().contains(x));
        }
        assert forall|x: IpAddr| out@.to_set().contains(x) == ips@.take(i + 1).to_set().contains(x) by {
            assert(out@.contains(x) <==> (before.contains(x) || x == ip));
            assert(before.contains(x) <==> ips@.take(i as int).contains(x));
            assert(ips@.take(i + 1).contains(x) <==> (ips@.take(i as int).contains(x) || x == ip));
        }
        assert(out@.to_set() =~= ips@.take(i + 1).to_set());
        i = i + 1;
    }
    assert(ips@.take(i as int) =~= ips@);
    out
}

/// The order of addresses: IPv4 before IPv6, and by number within a family.
pub open spec fn comes_before(a: IpAddr, b: IpAddr) -> bool {
    match (a, b) {
        (IpAddr::V4(x), IpAddr::V4(y)) => x < y,
        (IpAddr::V4(_), IpAddr::V6(_)) => true,
        (IpAddr::V6(_), IpAddr::V4(_)) => false,
        (IpAddr::V6(x), IpAddr::V6(y)) => x < y,
    }
}

/// Addresses rank as they are ordered.
pub proof fn rank_is_the_order(a: IpAddr, b: IpAddr)
    ensures
        rank(a) < rank(b) <==> comes_before(a, b),
{
}

/// An address precedes another exactly where it comes before it.
pub proof fn preceding_is_the_order(a: &IpAddr, b: &IpAddr, r: bool)
    requires
        call_ensures(IpAddr::precedes, (a, b), r),
    ensures
        r <==> comes_before(*a, *b),
{
}

/// Sorting keeps every address and adds none, in order and each once.
pub proof fn sorting_keeps_the_addresses(ips: &Vec<IpAddr>, r: Vec<IpAddr>)
    requires
        call_ensures(sorted_distinct, (ips,), r),
    ensures
        forall|ip: IpAddr| r@.contains(ip) <==> ips@.contains(ip),
        forall|i: int, j: int|
            0 <= i < j < r@.len() ==> comes_before(#[trigger] r@[i], #[trigger] r@[j]),
{
    assert forall|ip: IpAddr| r@.contains(ip) <==> ips@.contains(ip) by {
        assert(r@.to_set().contains(ip) <==> ips@.to_set().contains(ip));
    }
}

} // verus!
