//! Addresses told by their octets and segments: the text of an address names that
//! address and no other, and the blocks that are not public.

use vstd::prelude::*;

use crate::addr::{
    colon_joined, ip_text, is_gap, is_non_public_ip, non_public, octets, segments, v4_text, v6_text,
    zeros_from, IpAddr,
};
use crate::text::{decimal, digit, numeral};

verus! {

/// Two addresses with the same text are the same address.
pub proof fn text_names_one_address(a: IpAddr, b: IpAddr)
    requires
        ip_text(a) == ip_text(b),
    ensures
        a == b,
{
    match (a, b) {
        (IpAddr::V4(x), IpAddr::V4(y)) => {
            lemma_v4_injective(x, y);
        },
        (IpAddr::V6(x), IpAddr::V6(y)) => {
            lemma_v6_injective(x, y);
        },
        (IpAddr::V4(x), IpAddr::V6(y)) => {
            lemma_v4_chars(x);
            lemma_v6_has_colon(y);
        },
        (IpAddr::V6(x), IpAddr::V4(y)) => {
            lemma_v4_chars(y);
            lemma_v6_has_colon(x);
        },
    }
}

/// A character that may stand in a numeral.
spec fn is_digit(c: char) -> bool {
    '0' <= c <= '9' || 'a' <= c <= 'f'
}

proof fn lemma_numeral_chars(n: nat, radix: nat)
    requires
        2 <= radix <= 16,
    ensures
        numeral(n, radix).len() > 0,
        forall|i: int| 0 <= i < numeral(n, radix).len() ==> is_digit(#[trigger] numeral(n, radix)[i]),
    decreases n,
{
    if n >= radix {
        assert(n / radix < n) by (nonlinear_arith)
            requires
                radix >= 2,
                n >= radix,
        ;
        assert(n % radix < radix) by (nonlinear_arith)
            requires
                radix >= 2,
        ;
        lemma_numeral_chars(n / radix, radix);
        let front = numeral(n / radix, radix);
        assert(numeral(n, radix) == front.push(digit(n % radix)));
    }
}

proof fn lemma_digit_injective(a: nat, b: nat)
    requires
        a < 16,
        b < 16,
        digit(a) == digit(b),
    ensures
        a == b,
{
    assert(digit(a) as int == if a < 10 { 48 + a } else { 87 + a });
    assert(digit(b) as int == if b < 10 { 48 + b } else { 87 + b });
}

proof fn lemma_numeral_injective(a: nat, b: nat, radix: nat)
    requires
        2 <= radix <= 16,
        numeral(a, radix) == numeral(b, radix),
    ensures
        a == b,
    decreases a,
{
    if a >= radix {
        assert(a / radix < a) by (nonlinear_arith)
            requires
                radix >= 2,
                a >= radix,
        ;
        lemma_numeral_chars(a / radix, radix);
        assert(numeral(a, radix) == numeral(a / radix, radix).push(digit(a % radix)));
    }
    if b >= radix {
        lemma_numeral_chars(b / radix, radix);
        assert(numeral(b, radix) == numeral(b / radix, radix).push(digit(b % radix)));
    }
    if a < radix && b < radix {
        assert(numeral(a, radix)[0] == digit(a));
        assert(numeral(b, radix)[0] == digit(b));
        lemma_digit_injective(a, b);
    } else if a < radix || b < radix {
        assert(numeral(a, radix).len() != numeral(b, radix).len());
    } else {
        let front_a = numeral(a / radix, radix);
        let front_b = numeral(b / radix, radix);
        assert(numeral(a, radix).drop_last() =~= front_a);
        assert(numeral(b, radix).drop_last() =~= front_b);
        lemma_numeral_injective(a / radix, b / radix, radix);
        assert(numeral(a, radix).last() == digit(a % radix));
        assert(numeral(b, radix).last() == digit(b % radix));
        assert(a % radix < radix && b % radix < radix) by (nonlinear_arith)
            requires
                radix >= 2,
        ;
        lemma_digit_injective(a % radix, b % radix);
        vstd::arithmetic::div_mod::lemma_fundamental_div_mod(a as int, radix as int);
        vstd::arithmetic::div_mod::lemma_fundamental_div_mod(b as int, radix as int);
    }
}

/// A text falls apart in only one way at its last separator.
proof fn lemma_split_last(a: Seq<char>, b: Seq<char>, x: Seq<char>, y: Seq<char>, sep: char)
    requires
        a + seq![sep] + b == x + seq![sep] + y,
        forall|i: int| 0 <= i < b.len() ==> #[trigger] b[i] != sep,
        forall|i: int| 0 <= i < y.len() ==> #[trigger] y[i] != sep,
    ensures
        a == x,
        b == y,
{
    let s = a + seq![sep] + b;
    let t = x + seq![sep] + y;
    assert(s.len() == a.len() + 1 + b.len());
    assert(t.len() == x.len() + 1 + y.len());
    if a.len() < x.len() {
        assert(t[x.len() as int] == sep);
        assert(s[x.len() as int] == b[x.len() - a.len() - 1]);
    } else if x.len() < a.len() {
        assert(s[a.len() as int] == sep);
        assert(t[a.len() as int] == y[a.len() - x.len() - 1]);
    }
    assert(a =~= s.take(a.len() as int));
    assert(x =~= t.take(x.len() as int));
    assert(b =~= s.skip(a.len() as int + 1));
    assert(y =~= t.skip(x.len() as int + 1));
}

proof fn lemma_v4_chars(bits: u32)
    ensures
        forall|i: int|
            0 <= i < v4_text(bits).len() ==> (is_digit(#[trigger] v4_text(bits)[i]) || v4_text(
                bits,
            )[i] == '.'),
        exists|i: int| 0 <= i < v4_text(bits).len() && #[trigger] v4_text(bits)[i] == '.',
{
    let o = octets(bits);
    let d0 = numeral(o[0] as nat, 10);
    lemma_numeral_chars(o[0] as nat, 10);
    lemma_numeral_chars(o[1] as nat, 10);
    lemma_numeral_chars(o[2] as nat, 10);
    lemma_numeral_chars(o[3] as nat, 10);
    reveal_strlit(".");
    assert(v4_text(bits)[d0.len() as int] == '.');
}

#[verifier::spinoff_prover]
proof fn lemma_bits_of_octets(bits: u32)
    ensures
        ({
            let o = octets(bits);
            bits == o[0] * 0x100_0000 + o[1] * 0x1_0000 + o[2] * 0x100 + o[3]
        }),
{
    let q1 = bits / 0x100;
    let q2 = q1 / 0x100;
    let q3 = q2 / 0x100;
    assert(q2 == bits / 0x1_0000);
    assert(q3 == bits / 0x100_0000);
    assert(q3 < 0x100);
}

proof fn lemma_octets_injective(a: u32, b: u32)
    requires
        octets(a) == octets(b),
    ensures
        a == b,
{
    lemma_bits_of_octets(a);
    lemma_bits_of_octets(b);
}

#[verifier::spinoff_prover]
proof fn lemma_v4_injective(a: u32, b: u32)
    requires
        v4_text(a) == v4_text(b),
    ensures
        a == b,
{
    let o = octets(a);
    let p = octets(b);
    reveal_strlit(".");
    assert("."@ =~= seq!['.']);
    let a0 = numeral(o[0] as nat, 10);
    let a1 = numeral(o[1] as nat, 10);
    let a2 = numeral(o[2] as nat, 10);
    let a3 = numeral(o[3] as nat, 10);
    let b0 = numeral(p[0] as nat, 10);
    let b1 = numeral(p[1] as nat, 10);
    let b2 = numeral(p[2] as nat, 10);
    let b3 = numeral(p[3] as nat, 10);
    lemma_numeral_chars(o[1] as nat, 10);
    lemma_numeral_chars(o[2] as nat, 10);
    lemma_numeral_chars(o[3] as nat, 10);
    lemma_numeral_chars(p[1] as nat, 10);
    lemma_numeral_chars(p[2] as nat, 10);
    lemma_numeral_chars(p[3] as nat, 10);
    let dot = seq!['.'];
    lemma_split_last(a0 + dot + a1 + dot + a2, a3, b0 + dot + b1 + dot + b2, b3, '.');
    lemma_split_last(a0 + dot + a1, a2, b0 + dot + b1, b2, '.');
    lemma_split_last(a0, a1, b0, b1, '.');
    lemma_numeral_injective(o[0] as nat, p[0] as nat, 10);
    lemma_numeral_injective(o[1] as nat, p[1] as nat, 10);
    lemma_numeral_injective(o[2] as nat, p[2] as nat, 10);
    lemma_numeral_injective(o[3] as nat, p[3] as nat, 10);
    assert(o =~= p);
    lemma_octets_injective(a, b);
}

/// Segments joined by colons: digits and single colons, with a digit at either
/// end.
proof fn lemma_joined_shape(s: Seq<u16>)
    ensures
        ({
            let t = colon_joined(s);
            &&& s.len() == 0 <==> t.len() == 0
            &&& forall|i: int| 0 <= i < t.len() ==> (is_digit(#[trigger] t[i]) || t[i] == ':')
            &&& t.len() > 0 ==> is_digit(t[0]) && is_digit(t[t.len() - 1])
            &&& forall|i: int, j: int|
                0 <= i && j == i + 1 && j < t.len() && #[trigger] t[i] == ':' ==> #[trigger] t[j]
                    != ':'
            &&& s.len() >= 2 ==> exists|i: int| 0 <= i < t.len() && #[trigger] t[i] == ':'
        }),
    decreases s.len(),
{
    if s.len() == 1 {
        lemma_numeral_chars(s[0] as nat, 16);
    } else if s.len() >= 2 {
        let front = colon_joined(s.drop_last());
        let back = numeral(s.last() as nat, 16);
        lemma_joined_shape(s.drop_last());
        lemma_numeral_chars(s.last() as nat, 16);
        reveal_strlit(":");
        let t = colon_joined(s);
        assert(t == front + ":"@ + back);
        assert(t[front.len() as int] == ':');
        assert(t[t.len() - 1] == back[back.len() - 1]);
        assert(t[0] == front[0]);
        assert forall|i: int, j: int|
            0 <= i && j == i + 1 && j < t.len() && #[trigger] t[i] == ':' implies #[trigger] t[j]
            != ':' by {
            if j < front.len() {
                assert(front[i] == ':' && front[j] == t[j]);
            } else if j == front.len() {
                assert(t[i] == front[front.len() - 1]);
            } else {
                assert(t[j] == back[j - front.len() - 1]);
            }
        }
    }
}

proof fn lemma_joined_injective(s: Seq<u16>, t: Seq<u16>)
    requires
        colon_joined(s) == colon_joined(t),
    ensures
        s == t,
    decreases s.len(),
{
    lemma_joined_shape(s);
    lemma_joined_shape(t);
    if s.len() == 0 || t.len() == 0 {
        assert(s =~= t);
    } else {
        let x = numeral(s.last() as nat, 16);
        let y = numeral(t.last() as nat, 16);
        lemma_numeral_chars(s.last() as nat, 16);
        lemma_numeral_chars(t.last() as nat, 16);
        if s.len() == 1 && t.len() == 1 {
            lemma_numeral_injective(s[0] as nat, t[0] as nat, 16);
            assert(s =~= t);
        } else if s.len() == 1 || t.len() == 1 {
            assert(false);
        } else {
            reveal_strlit(":");
            assert(":"@ =~= seq![':']);
            lemma_split_last(
                colon_joined(s.drop_last()),
                x,
                colon_joined(t.drop_last()),
                y,
                ':',
            );
            lemma_joined_injective(s.drop_last(), t.drop_last());
            lemma_numeral_injective(s.last() as nat, t.last() as nat, 16);
            assert(s =~= s.drop_last().push(s.last()));
            assert(t =~= t.drop_last().push(t.last()));
        }
    }
}

proof fn lemma_zero_run(s: Seq<u16>, i: int)
    requires
        0 <= i <= s.len(),
    ensures
        i + zeros_from(s, i) <= s.len(),
        forall|k: int| i <= k < i + zeros_from(s, i) ==> #[trigger] s[k] == 0,
    decreases s.len() - i,
{
    if i < s.len() && s[i] == 0 {
        lemma_zero_run(s, i + 1);
    }
}

/// There is a longest run, and a first of the longest.
proof fn lemma_gap_exists(s: Seq<u16>, n: int) -> (gap: int)
    requires
        1 <= n <= s.len(),
    ensures
        0 <= gap < n,
        forall|j: int| #![trigger zeros_from(s, j)]
            0 <= j < n ==> zeros_from(s, j) <= zeros_from(s, gap),
        forall|j: int| #![trigger zeros_from(s, j)]
            0 <= j < gap ==> zeros_from(s, j) < zeros_from(s, gap),
    decreases n,
{
    if n == 1 {
        0
    } else {
        let best = lemma_gap_exists(s, n - 1);
        if zeros_from(s, n - 1) > zeros_from(s, best) {
            n - 1
        } else {
            best
        }
    }
}

spec fn gap_of(s: Seq<u16>) -> int {
    choose|i: int| is_gap(s, i)
}

spec fn run_of(s: Seq<u16>) -> int {
    zeros_from(s, gap_of(s)) as int
}

spec fn is_mapped(bits: u128) -> bool {
    bits / 0x1_0000_0000 == 0xffff
}

proof fn lemma_gap(s: Seq<u16>)
    requires
        s.len() == 8,
    ensures
        0 <= gap_of(s) < 8,
        gap_of(s) + run_of(s) <= 8,
        forall|k: int| gap_of(s) <= k < gap_of(s) + run_of(s) ==> #[trigger] s[k] == 0,
{
    let g = lemma_gap_exists(s, 8);
    assert(is_gap(s, g));
    lemma_zero_run(s, gap_of(s));
}

/// What the text of an address that is not mapped is made of.
proof fn lemma_v6_shape(bits: u128)
    requires
        !is_mapped(bits),
    ensures
        ({
            let s = segments(bits);
            let t = v6_text(bits);
            let left = colon_joined(s.take(gap_of(s)));
            let right = colon_joined(s.skip(gap_of(s) + run_of(s)));
            &&& forall|i: int| 0 <= i < t.len() ==> (is_digit(#[trigger] t[i]) || t[i] == ':')
            &&& exists|i: int| 0 <= i < t.len() && #[trigger] t[i] == ':'
            &&& run_of(s) >= 2 ==> t == left + seq![':', ':'] + right
            &&& run_of(s) < 2 ==> t == colon_joined(s)
        }),
{
    let s = segments(bits);
    lemma_gap(s);
    let left = colon_joined(s.take(gap_of(s)));
    let right = colon_joined(s.skip(gap_of(s) + run_of(s)));
    lemma_joined_shape(s.take(gap_of(s)));
    lemma_joined_shape(s.skip(gap_of(s) + run_of(s)));
    lemma_joined_shape(s);
    reveal_strlit("::");
    assert("::"@ =~= seq![':', ':']);
    if run_of(s) >= 2 {
        assert(v6_text(bits)[left.len() as int] == ':');
    }
}

proof fn lemma_v6_has_colon(bits: u128)
    ensures
        exists|i: int| 0 <= i < v6_text(bits).len() && #[trigger] v6_text(bits)[i] == ':',
{
    if is_mapped(bits) {
        reveal_strlit("::ffff:");
        assert(v6_text(bits)[0] == ':');
    } else {
        lemma_v6_shape(bits);
    }
}

/// A text falls apart in only one way at its double colon.
proof fn lemma_split_double(a: Seq<u16>, b: Seq<char>, x: Seq<u16>, y: Seq<char>)
    requires
        colon_joined(a) + seq![':', ':'] + b == colon_joined(x) + seq![':', ':'] + y,
        a.len() <= 8,
        x.len() <= 8,
    ensures
        colon_joined(a) == colon_joined(x),
        b == y,
{
    let s = colon_joined(a);
    let t = colon_joined(x);
    lemma_joined_shape(a);
    lemma_joined_shape(x);
    let whole = s + seq![':', ':'] + b;
    assert(whole == t + seq![':', ':'] + y);
    assert(whole[s.len() as int] == ':' && whole[s.len() as int + 1] == ':');
    assert(whole[t.len() as int] == ':' && whole[t.len() as int + 1] == ':');
    if s.len() + 1 < t.len() {
        assert(t[s.len() as int] == ':' && t[s.len() as int + 1] == ':');
    } else if s.len() + 1 == t.len() {
        assert(t[t.len() - 1] == whole[s.len() as int]);
    } else if t.len() + 1 < s.len() {
        assert(s[t.len() as int] == ':' && s[t.len() as int + 1] == ':');
    } else if t.len() + 1 == s.len() {
        assert(s[s.len() - 1] == whole[t.len() as int]);
    }
    assert(s =~= whole.take(s.len() as int));
    assert(t =~= whole.take(t.len() as int));
    assert(b =~= whole.skip(s.len() as int + 2));
    assert(y =~= whole.skip(t.len() as int + 2));
}

/// A text with a double colon is no text of segments joined by single ones.
proof fn lemma_double_is_not_joined(a: Seq<char>, b: Seq<char>, s: Seq<u16>)
    ensures
        a + seq![':', ':'] + b != colon_joined(s),
{
    lemma_joined_shape(s);
    let t = colon_joined(s);
    if a + seq![':', ':'] + b == t {
        assert(t[a.len() as int] == ':' && t[a.len() as int + 1] == ':');
    }
}

proof fn lemma_segments_injective(a: u128, b: u128)
    requires
        segments(a) == segments(b),
    ensures
        a == b,
{
    let s = segments(a);
    let t = segments(b);
    assert(s[0] == t[0] && s[1] == t[1] && s[2] == t[2] && s[3] == t[3]);
    assert(s[4] == t[4] && s[5] == t[5] && s[6] == t[6] && s[7] == t[7]);
    lemma_bits_of_segments(a);
    lemma_bits_of_segments(b);
}

#[verifier::spinoff_prover]
proof fn lemma_bits_of_segments(bits: u128)
    ensures
        ({
            let s = segments(bits);
            bits == s[0] * 0x1_0000_0000_0000_0000_0000_0000_0000 + s[1]
                * 0x1_0000_0000_0000_0000_0000_0000 + s[2] * 0x1_0000_0000_0000_0000_0000 + s[3]
                * 0x1_0000_0000_0000_0000 + s[4] * 0x1_0000_0000_0000 + s[5] * 0x1_0000_0000 + s[6]
                * 0x1_0000 + s[7]
        }),
{
    let q1 = bits / 0x1_0000;
    let q2 = q1 / 0x1_0000;
    let q3 = q2 / 0x1_0000;
    let q4 = q3 / 0x1_0000;
    let q5 = q4 / 0x1_0000;
    let q6 = q5 / 0x1_0000;
    let q7 = q6 / 0x1_0000;
    assert(q2 == bits / 0x1_0000_0000);
    assert(q3 == bits / 0x1_0000_0000_0000);
    assert(q4 == bits / 0x1_0000_0000_0000_0000);
    assert(q5 == bits / 0x1_0000_0000_0000_0000_0000);
    assert(q6 == bits / 0x1_0000_0000_0000_0000_0000_0000);
    assert(q7 == bits / 0x1_0000_0000_0000_0000_0000_0000_0000);
    assert(q7 < 0x1_0000);
}

proof fn lemma_v6_injective(a: u128, b: u128)
    requires
        v6_text(a) == v6_text(b),
    ensures
        a == b,
{
    if is_mapped(a) && is_mapped(b) {
        let x = v4_text((a % 0x1_0000_0000) as u32);
        let y = v4_text((b % 0x1_0000_0000) as u32);
        reveal_strlit("::ffff:");
        assert(x =~= v6_text(a).skip(7));
        assert(y =~= v6_text(b).skip(7));
        lemma_v4_injective((a % 0x1_0000_0000) as u32, (b % 0x1_0000_0000) as u32);
    } else if is_mapped(a) {
        lemma_mapped_differs(a, b);
    } else if is_mapped(b) {
        lemma_mapped_differs(b, a);
    } else {
        let s = segments(a);
        let t = segments(b);
        lemma_v6_shape(a);
        lemma_v6_shape(b);
        lemma_gap(s);
        lemma_gap(t);
        let left_s = s.take(gap_of(s));
        let left_t = t.take(gap_of(t));
        let right_s = s.skip(gap_of(s) + run_of(s));
        let right_t = t.skip(gap_of(t) + run_of(t));
        if run_of(s) >= 2 && run_of(t) >= 2 {
            lemma_split_double(left_s, colon_joined(right_s), left_t, colon_joined(right_t));
            lemma_joined_injective(left_s, left_t);
            lemma_joined_injective(right_s, right_t);
            assert(gap_of(s) == left_s.len() && gap_of(t) == left_t.len());
            assert(right_s.len() == 8 - gap_of(s) - run_of(s));
            assert(right_t.len() == 8 - gap_of(t) - run_of(t));
            assert forall|k: int| 0 <= k < 8 implies s[k] == t[k] by {
                if k < gap_of(s) {
                    assert(left_s[k] == left_t[k]);
                } else if k >= gap_of(s) + run_of(s) {
                    assert(right_s[k - gap_of(s) - run_of(s)] == right_t[k - gap_of(t) - run_of(
                        t,
                    )]);
                }
            }
            assert(s =~= t);
        } else if run_of(s) >= 2 {
            lemma_double_is_not_joined(colon_joined(left_s), colon_joined(right_s), t);
        } else if run_of(t) >= 2 {
            lemma_double_is_not_joined(colon_joined(left_t), colon_joined(right_t), s);
        } else {
            lemma_joined_injective(s, t);
        }
        lemma_segments_injective(a, b);
    }
}

proof fn lemma_mapped_differs(a: u128, b: u128)
    requires
        is_mapped(a),
        !is_mapped(b),
    ensures
        v6_text(a) != v6_text(b),
{
    let x = v4_text((a % 0x1_0000_0000) as u32);
    lemma_v4_chars((a % 0x1_0000_0000) as u32);
    lemma_v6_shape(b);
    reveal_strlit("::ffff:");
    let i = choose|i: int| 0 <= i < x.len() && #[trigger] x[i] == '.';
    assert(v6_text(a)[i + 7] == '.');
}

/// The text of an IPv4 address is its four octets in decimal, the most significant
/// first, with a dot between each two.
#[verifier::spinoff_prover]
pub proof fn an_ipv4_text_names_the_octets(a: u8, b: u8, c: u8, d: u8, bits: u32, r: String)
    requires
        bits == a * 0x100_0000 + b * 0x1_0000 + c * 0x100 + d,
        call_ensures(IpAddr::to_text, (&IpAddr::V4(bits),), r),
    ensures
        r@ == decimal(a as nat) + "."@ + decimal(b as nat) + "."@ + decimal(c as nat) + "."@
            + decimal(d as nat),
{
    lemma_octets_of(a, b, c, d, bits);
    assert(r@ == v4_text(bits));
}

#[verifier::spinoff_prover]
proof fn lemma_octets_of(a: u8, b: u8, c: u8, d: u8, bits: u32)
    requires
        bits == a * 0x100_0000 + b * 0x1_0000 + c * 0x100 + d,
    ensures
        octets(bits) == seq![a, b, c, d],
{
    let o = octets(bits);
    lemma_bits_of_octets(bits);
    let high = a * 0x1_0000 + b * 0x100 + c;
    let high_o = o[0] * 0x1_0000 + o[1] * 0x100 + o[2];
    assert(high * 0x100 + d == high_o * 0x100 + o[3]);
    assert(d == o[3] && high == high_o);
    assert((a * 0x100 + b) * 0x100 + c == (o[0] * 0x100 + o[1]) * 0x100 + o[2]);
    assert(c == o[2] && a * 0x100 + b == o[0] * 0x100 + o[1]);
    assert(b == o[1] && a == o[0]);
    assert(o =~= seq![a, b, c, d]);
}

/// Joined segments are hexadecimal numerals with a single colon between each two.
pub proof fn segments_are_joined_by_colons(first: Seq<u16>, second: Seq<u16>, one: u16)
    ensures
        colon_joined(Seq::<u16>::empty()) == Seq::<char>::empty(),
        colon_joined(seq![one]) == numeral(one as nat, 16),
        first.len() > 0 && second.len() > 0 ==> colon_joined(first + second) == colon_joined(first)
            + ":"@ + colon_joined(second),
    decreases second.len(),
{
    if first.len() > 0 && second.len() > 0 {
        let both = first + second;
        let shorter = second.drop_last();
        assert(both.last() == second.last());
        assert(both.drop_last() =~= first + shorter);
        segments_are_joined_by_colons(first, shorter, one);
        if shorter.len() == 0 {
            assert(first + shorter =~= first);
            assert(colon_joined(both) == colon_joined(first) + ":"@ + numeral(
                second.last() as nat,
                16,
            ));
        } else {
            assert(colon_joined(both) =~= colon_joined(first) + ":"@ + colon_joined(second));
        }
    }
}

/// The `n` segments from position `i` on are zero.
pub open spec fn is_zero_run(s: Seq<u16>, i: int, n: int) -> bool {
    &&& 0 <= i
    &&& 0 <= n
    &&& i + n <= s.len()
    &&& forall|k: int| i <= k < i + n ==> #[trigger] s[k] == 0
}

/// The number that eight segments spell, the most significant first.
pub open spec fn number_of(s: Seq<u16>) -> int {
    s[0] * 0x1_0000_0000_0000_0000_0000_0000_0000 + s[1] * 0x1_0000_0000_0000_0000_0000_0000 + s[2]
        * 0x1_0000_0000_0000_0000_0000 + s[3] * 0x1_0000_0000_0000_0000 + s[4] * 0x1_0000_0000_0000
        + s[5] * 0x1_0000_0000 + s[6] * 0x1_0000 + s[7]
}

proof fn lemma_digits_agree(high: int, low: int, other_high: int, other_low: int)
    requires
        high * 0x1_0000 + low == other_high * 0x1_0000 + other_low,
        0 <= low < 0x1_0000,
        0 <= other_low < 0x1_0000,
    ensures
        high == other_high,
        low == other_low,
{
}

#[verifier::spinoff_prover]
proof fn lemma_segments_of(s: Seq<u16>, bits: u128)
    requires
        s.len() == 8,
        bits == number_of(s),
    ensures
        segments(bits) == s,
{
    let t = segments(bits);
    lemma_bits_of_segments(bits);
    let s1 = s[0] * 0x1_0000 + s[1];
    let s2 = s1 * 0x1_0000 + s[2];
    let s3 = s2 * 0x1_0000 + s[3];
    let s4 = s3 * 0x1_0000 + s[4];
    let s5 = s4 * 0x1_0000 + s[5];
    let s6 = s5 * 0x1_0000 + s[6];
    let t1 = t[0] * 0x1_0000 + t[1];
    let t2 = t1 * 0x1_0000 + t[2];
    let t3 = t2 * 0x1_0000 + t[3];
    let t4 = t3 * 0x1_0000 + t[4];
    let t5 = t4 * 0x1_0000 + t[5];
    let t6 = t5 * 0x1_0000 + t[6];
    lemma_digits_agree(s6, s[7] as int, t6, t[7] as int);
    lemma_digits_agree(s5, s[6] as int, t5, t[6] as int);
    lemma_digits_agree(s4, s[5] as int, t4, t[5] as int);
    lemma_digits_agree(s3, s[4] as int, t3, t[4] as int);
    lemma_digits_agree(s2, s[3] as int, t2, t[3] as int);
    lemma_digits_agree(s1, s[2] as int, t1, t[2] as int);
    lemma_digits_agree(s[0] as int, s[1] as int, t[0] as int, t[1] as int);
    assert(t =~= s);
}

proof fn lemma_longest_run(s: Seq<u16>, i: int, n: int)
    requires
        is_zero_run(s, i, n),
    ensures
        n <= zeros_from(s, i),
    decreases n,
{
    if n > 0 {
        assert(s[i] == 0);
        assert(is_zero_run(s, i + 1, n - 1));
        lemma_longest_run(s, i + 1, n - 1);
    }
}

/// An IPv4-mapped IPv6 address is written as such, with the IPv4 address at its
/// end. Any other is written as its eight segments; but the longest run of two or
/// more zero segments, the first where there are several, is left out between two
/// colons.
#[verifier::spinoff_prover]
pub proof fn an_ipv6_text_names_the_segments(s: Seq<u16>, bits: u128, r: String, low: u32, end: String)
    requires
        s.len() == 8,
        bits == number_of(s),
        call_ensures(IpAddr::to_text, (&IpAddr::V6(bits),), r),
        low == s[6] * 0x1_0000 + s[7],
        call_ensures(IpAddr::to_text, (&IpAddr::V4(low),), end),
    ensures
        ({
            let mapped = is_zero_run(s, 0, 5) && s[5] == 0xffff;
            let has_gap = exists|i: int| is_zero_run(s, i, 2);
            &&& mapped ==> r@ == "::ffff:"@ + end@
            &&& !mapped && !has_gap ==> r@ == colon_joined(s)
            &&& !mapped && has_gap ==> exists|i: int, n: int|
                {
                    &&& n >= 2
                    &&& #[trigger] is_zero_run(s, i, n)
                    &&& forall|j: int, m: int| #[trigger]
                        is_zero_run(s, j, m) ==> (m < n || m == n && i <= j)
                    &&& r@ == colon_joined(s.take(i)) + "::"@ + colon_joined(s.skip(i + n))
                }
        }),
{
    lemma_segments_of(s, bits);
    lemma_mapped_segments(s, bits);
    assert(r@ == v6_text(bits));
    assert(end@ == v4_text(low));
    if !is_mapped(bits) {
        lemma_gap(s);
        let gap = gap_of(s);
        let run = run_of(s);
        let g = lemma_gap_exists(s, 8);
        assert(is_gap(s, g));
        assert(is_gap(s, gap));
        assert(is_zero_run(s, gap, run));
        assert forall|j: int, m: int| #[trigger] is_zero_run(s, j, m) && m > 0 implies (m < run || m
            == run && gap <= j) by {
            lemma_longest_run(s, j, m);
            assert(zeros_from(s, j) <= zeros_from(s, gap));
        }
        if run >= 2 {
            assert(is_zero_run(s, gap, 2));
        }
    }
}

#[verifier::spinoff_prover]
proof fn lemma_mapped_segments(s: Seq<u16>, bits: u128)
    requires
        s.len() == 8,
        bits == number_of(s),
    ensures
        is_mapped(bits) <==> is_zero_run(s, 0, 5) && s[5] == 0xffff,
        (bits % 0x1_0000_0000) as u32 == s[6] * 0x1_0000 + s[7],
{
    let high = s[0] * 0x1_0000_0000_0000_0000_0000 + s[1] * 0x1_0000_0000_0000_0000 + s[2]
        * 0x1_0000_0000_0000 + s[3] * 0x1_0000_0000 + s[4] * 0x1_0000 + s[5];
    let low = s[6] * 0x1_0000 + s[7];
    assert(bits == high * 0x1_0000_0000 + low);
    assert(0 <= low < 0x1_0000_0000);
    assert(bits / 0x1_0000_0000 == high);
    assert(bits % 0x1_0000_0000 == low);
    if high == 0xffff {
        assert(s[0] == 0 && s[1] == 0 && s[2] == 0 && s[3] == 0 && s[4] == 0);
        assert forall|k: int| 0 <= k < 0 + 5 implies #[trigger] s[k] == 0 by {}
    }
}

/// The IPv4 addresses outside the public Internet, octet by octet: those of the
/// machine itself, of private networks, of one link, of no host and of all hosts,
/// of a carrier's customers, and of examples.
#[verifier::spinoff_prover]
pub proof fn ipv4_blocks_by_octets(a: u8, b: u8, c: u8, d: u8, bits: u32, r: bool)
    requires
        bits == a * 0x100_0000 + b * 0x1_0000 + c * 0x100 + d,
        call_ensures(is_non_public_ip, (IpAddr::V4(bits),), r),
    ensures
        r <==> {
            ||| a == 127
            ||| a == 10
            ||| a == 172 && b / 16 == 1
            ||| a == 192 && b == 168
            ||| a == 169 && b == 254
            ||| a == 255 && b == 255 && c == 255 && d == 255
            ||| a == 0 && b == 0 && c == 0 && d == 0
            ||| a == 100 && b / 64 == 1
            ||| a == 192 && b == 0 && c == 2
            ||| a == 198 && b == 51 && c == 100
            ||| a == 203 && b == 0 && c == 113
        },
{
    assert(r == non_public(IpAddr::V4(bits)));
    assert(b / 16 == 1 <==> 16 <= b <= 31);
    assert(b / 64 == 1 <==> 64 <= b <= 127);
}

/// The IPv6 addresses outside the public Internet, segment by segment: the one of
/// the machine itself and that of no host, those of a site, of one link, and of
/// examples.
#[verifier::spinoff_prover]
pub proof fn ipv6_blocks_by_segments(s: Seq<u16>, bits: u128, r: bool)
    requires
        s.len() == 8,
        bits == number_of(s),
        call_ensures(is_non_public_ip, (IpAddr::V6(bits),), r),
    ensures
        r <==> {
            ||| is_zero_run(s, 0, 7) && s[7] <= 1
            ||| s[0] / 0x200 == 0x7e
            ||| s[0] / 0x40 == 0x3fa
            ||| s[0] == 0x2001 && s[1] == 0xdb8
        },
{
    assert(r == non_public(IpAddr::V6(bits)));
    assert(s[0] / 0x200 == 0x7e <==> 0xfc00 <= s[0] <= 0xfdff);
    assert(s[0] / 0x40 == 0x3fa <==> 0xfe80 <= s[0] <= 0xfebf);
    let low = s[1] * 0x1_0000_0000_0000_0000_0000_0000 + s[2] * 0x1_0000_0000_0000_0000_0000 + s[3]
        * 0x1_0000_0000_0000_0000 + s[4] * 0x1_0000_0000_0000 + s[5] * 0x1_0000_0000 + s[6]
        * 0x1_0000 + s[7];
    assert(0 <= low < 0x1_0000_0000_0000_0000_0000_0000_0000);
    assert(bits == s[0] * 0x1_0000_0000_0000_0000_0000_0000_0000 + low);
    if bits <= 1 {
        assert(s[0] == 0 && s[1] == 0 && s[2] == 0 && s[3] == 0 && s[4] == 0 && s[5] == 0 && s[6]
            == 0);
        assert forall|k: int| 0 <= k < 0 + 7 implies #[trigger] s[k] == 0 by {}
    }
    if is_zero_run(s, 0, 7) {
        assert(s[0] == 0 && s[1] == 0 && s[2] == 0 && s[3] == 0 && s[4] == 0 && s[5] == 0 && s[6]
            == 0);
    }
}

} // verus!
