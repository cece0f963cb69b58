//! Text primitives: numerals, white space, prefixes and ASCII case, each with
//! its meaning on character sequences.

use vstd::prelude::*;
use vstd::slice::slice_subrange;

verus! {

/// `String::push` appends one character to the end of the string.
pub assume_specification[ String::push ](s: &mut String, c: char)
    ensures
        final(s)@ == old(s)@.push(c),
;

/// The lower-case digit that stands for `d`, for `d` below sixteen.
pub open spec fn digit(d: nat) -> char {
    if d < 10 {
        (48 + d) as char
    } else {
        (87 + d) as char
    }
}

/// The numeral of `n` in the given radix, most significant digit first and
/// without leading zeros.
pub open spec fn numeral(n: nat, radix: nat) -> Seq<char>
    decreases n,
{
    if radix < 2 || n < radix {
        seq![digit(n)]
    } else {
        proof {
            assert(n / radix < n) by (nonlinear_arith)
                requires
                    radix >= 2,
                    n >= radix,
            ;
        }
        numeral(n / radix, radix).push(digit(n % radix))
    }
}

/// The decimal numeral of `n`.
pub open spec fn decimal(n: nat) -> Seq<char> {
    numeral(n, 10)
}

fn digit_char(d: u8) -> (c: char)
    requires
        d < 16,
    ensures
        c == digit(d as nat),
{
    if d < 10 {
        (48 + d) as char
    } else {
        (87 + d) as char
    }
}

/// Writes `n` in the given radix behind `out`.
pub fn push_numeral(out: &mut String, n: u128, radix: u8)
    requires
        2 <= radix <= 16,
    ensures
        final(out)@ == old(out)@ + numeral(n as nat, radix as nat),
    decreases n,
{
    let base: u128 = radix as u128;
    if n >= base {
        assert(n / base < n) by (nonlinear_arith)
            requires
                base >= 2,
                n >= base,
        ;
        push_numeral(out, n / base, radix);
    } else {
        assert(n % base == n) by (nonlinear_arith)
            requires
                0 <= n < base,
        ;
    }
    assert(n % base < base) by (nonlinear_arith)
        requires
            base > 0,
    ;
    let last: char = digit_char((n % base) as u8);
    out.push(last);
}

/// Writes the decimal numeral of `n` behind `out`.
pub fn push_decimal(out: &mut String, n: u128)
    ensures
        final(out)@ == old(out)@ + decimal(n as nat),
{
    push_numeral(out, n, 10);
}

/// The characters with the Unicode property `White_Space`.
pub open spec fn white_space(c: char) -> bool {
    let u = c as u32;
    ||| 0x09 <= u <= 0x0d
    ||| u == 0x20
    ||| u == 0x85
    ||| u == 0xa0
    ||| u == 0x1680
    ||| 0x2000 <= u <= 0x200a
    ||| u == 0x2028
    ||| u == 0x2029
    ||| u == 0x202f
    ||| u == 0x205f
    ||| u == 0x3000
}

/// Tells whether `c` is white space.
pub fn is_white_space(c: char) -> (r: bool)
    ensures
        r == white_space(c),
{
    let u: u32 = c as u32;
    (0x09 <= u && u <= 0x0d) || u == 0x20 || u == 0x85 || u == 0xa0 || u == 0x1680 || (0x2000 <= u
        && u <= 0x200a) || u == 0x2028 || u == 0x2029 || u == 0x202f || u == 0x205f || u == 0x3000
}

/// `s` without the white space at its front.
pub open spec fn trim_start(s: Seq<char>) -> Seq<char>
    decreases s.len(),
{
    if s.len() > 0 && white_space(s.first()) {
        trim_start(s.drop_first())
    } else {
        s
    }
}

/// `s` without the white space at its back.
pub open spec fn trim_end(s: Seq<char>) -> Seq<char>
    decreases s.len(),
{
    if s.len() > 0 && white_space(s.last()) {
        trim_end(s.drop_last())
    } else {
        s
    }
}

/// `s` without the white space around it.
pub open spec fn trim(s: Seq<char>) -> Seq<char> {
    trim_end(trim_start(s))
}

/// `s` without the run of `c` at its back.
pub open spec fn trim_end_matches(s: Seq<char>, c: char) -> Seq<char>
    decreases s.len(),
{
    if s.len() > 0 && s.last() == c {
        trim_end_matches(s.drop_last(), c)
    } else {
        s
    }
}

/// The part of `s` between the white space at its two ends.
pub fn trim_chars(s: &[char]) -> (r: &[char])
    ensures
        r@ == trim(s@),
{
    let mut from: usize = 0;
    assert(s@.subrange(0, s@.len() as int) =~= s@);
    while from < s.len() && is_white_space(s[from])
        invariant
            from <= s@.len(),
            trim_start(s@) == trim_start(s@.subrange(from as int, s@.len() as int)),
        decreases s@.len() - from,
    {
        assert(s@.subrange(from as int, s@.len() as int).drop_first() =~= s@.subrange(
            from + 1,
            s@.len() as int,
        ));
        from = from + 1;
    }
    let mut to: usize = s.len();
    while from < to && is_white_space(s[to - 1])
        invariant
            from <= to <= s@.len(),
            trim(s@) == trim_end(s@.subrange(from as int, to as int)),
        decreases to,
    {
        assert(s@.subrange(from as int, to as int).drop_last() =~= s@.subrange(
            from as int,
            to - 1,
        ));
        to = to - 1;
    }
    slice_subrange(s, from, to)
}

/// The part of `s` before the run of `c` at its back.
pub fn trim_end_matches_chars(s: &[char], c: char) -> (r: &[char])
    ensures
        r@ == trim_end_matches(s@, c),
{
    let mut to: usize = s.len();
    assert(s@.subrange(0, to as int) =~= s@);
    while 0 < to && s[to - 1] == c
        invariant
            to <= s@.len(),
            trim_end_matches(s@, c) == trim_end_matches(s@.subrange(0, to as int), c),
        decreases to,
    {
        assert(s@.subrange(0, to as int).drop_last() =~= s@.subrange(0, to - 1));
        to = to - 1;
    }
    slice_subrange(s, 0, to)
}

/// What a series of strings holds.
pub open spec fn texts(strings: Seq<String>) -> Seq<Seq<char>> {
    strings.map_values(|s: String| s@)
}

/// The characters of `s`, in order.
pub fn to_chars(s: &str) -> (r: Vec<char>)
    ensures
        r@ == s@,
{
    let mut out: Vec<char> = Vec::new();
    for c in it: s.chars()
        invariant
            out@ == it.seq().take(it.index() as int),
            it.seq() == s@,
    {
        out.push(c);
    }
    out
}

/// The string that holds the characters of `s`.
pub fn from_chars(s: &[char]) -> (r: String)
    ensures
        r@ == s@,
{
    let mut out: String = String::new();
    let mut i: usize = 0;
    while i < s.len()
        invariant
            i <= s@.len(),
            out@ == s@.take(i as int),
        decreases s@.len() - i,
    {
        out.push(s[i]);
        i = i + 1;
    }
    assert(s@.take(i as int) =~= s@);
    out
}

/// `s` without the white space around it, as a string of its own.
pub fn trimmed(s: &str) -> (r: String)
    ensures
        r@ == trim(s@),
{
    let chars: Vec<char> = to_chars(s);
    from_chars(trim_chars(chars.as_slice()))
}

/// The ASCII lower-case form of `c`; other characters stand for themselves.
pub open spec fn ascii_lower(c: char) -> char {
    if 'A' <= c <= 'Z' {
        (c as u32 + 32) as char
    } else {
        c
    }
}

/// Equality that takes ASCII letters of either case for the same.
pub open spec fn eq_ignore_ascii_case(a: Seq<char>, b: Seq<char>) -> bool {
    &&& a.len() == b.len()
    &&& forall|i: int| 0 <= i < a.len() ==> ascii_lower(#[trigger] a[i]) == ascii_lower(b[i])
}

fn ascii_lower_char(c: char) -> (r: char)
    ensures
        r == ascii_lower(c),
{
    if 'A' <= c && c <= 'Z' {
        (c as u8 + 32) as char
    } else {
        c
    }
}

/// Tells whether `a` and `b` are equal up to the case of ASCII letters.
pub fn eq_ignore_ascii_case_chars(a: &[char], b: &[char]) -> (r: bool)
    ensures
        r == eq_ignore_ascii_case(a@, b@),
{
    if a.len() != b.len() {
        return false;
    }
    let mut i: usize = 0;
    while i < a.len()
        invariant
            i <= a@.len(),
            a@.len() == b@.len(),
            forall|k: int| 0 <= k < i ==> ascii_lower(#[trigger] a@[k]) == ascii_lower(b@[k]),
        decreases a@.len() - i,
    {
        if ascii_lower_char(a[i]) != ascii_lower_char(b[i]) {
            return false;
        }
        i = i + 1;
    }
    true
}

/// Tells whether `s` begins with `prefix`.
pub fn has_prefix(s: &[char], prefix: &[char]) -> (r: bool)
    ensures
        r == prefix@.is_prefix_of(s@),
{
    if s.len() < prefix.len() {
        return false;
    }
    let mut i: usize = 0;
    while i < prefix.len()
        invariant
            i <= prefix@.len() <= s@.len(),
            forall|k: int| 0 <= k < i ==> prefix@[k] == s@[k],
        decreases prefix@.len() - i,
    {
        if s[i] != prefix[i] {
            return false;
        }
        i = i + 1;
    }
    assert(prefix@ =~= s@.subrange(0, prefix@.len() as int));
    true
}

/// White space behind a text does not change what trimming leaves of it.
pub proof fn trim_ignores_final_white_space(s: Seq<char>, c: char)
    requires
        white_space(c),
    ensures
        trim(s.push(c)) == trim(s),
    decreases s.len(),
{
    let longer = s.push(c);
    if s.len() == 0 {
        assert(longer.drop_first() =~= s);
        assert(trim_start(longer) == trim_start(s));
    } else if white_space(s.first()) {
        assert(longer.drop_first() =~= s.drop_first().push(c));
        trim_ignores_final_white_space(s.drop_first(), c);
    } else {
        assert(trim_start(longer) == longer);
        assert(longer.drop_last() =~= s);
    }
}

/// What trimming leaves has no white space at either end, so trimming it again
/// changes nothing.
pub proof fn trimming_is_final(s: Seq<char>)
    ensures
        trim(trim(s)) == trim(s),
        trim(s).len() > 0 ==> !white_space(trim(s).first()) && !white_space(trim(s).last()),
{
    lemma_trim_start(s);
    lemma_trim_end_front(trim_start(s));
}

proof fn lemma_trim_end_front(s: Seq<char>)
    ensures
        trim_end(s).len() <= s.len(),
        trim_end(s).len() > 0 ==> !white_space(trim_end(s).last()) && trim_end(s).first()
            == s.first(),
    decreases s.len(),
{
    if s.len() > 0 && white_space(s.last()) {
        lemma_trim_end_front(s.drop_last());
    }
}

/// A text is nothing but white space exactly when trimming leaves nothing.
pub proof fn blank_iff_trim_empty(s: Seq<char>)
    ensures
        trim(s).len() == 0 <==> forall|i: int| 0 <= i < s.len() ==> white_space(#[trigger] s[i]),
{
    lemma_trim_start(s);
    lemma_trim_end(trim_start(s));
}

proof fn lemma_trim_start(s: Seq<char>)
    ensures
        trim_start(s).len() == 0 <==> forall|i: int|
            0 <= i < s.len() ==> white_space(#[trigger] s[i]),
        trim_start(s).len() > 0 ==> !white_space(trim_start(s).first()),
        forall|i: int|
            0 <= i < trim_start(s).len() ==> #[trigger] trim_start(s)[i] == s[s.len()
                - trim_start(s).len() + i],
        trim_start(s).len() <= s.len(),
    decreases s.len(),
{
    if s.len() > 0 && white_space(s.first()) {
        lemma_trim_start(s.drop_first());
        assert forall|i: int|
            (forall|k: int|
                0 <= k < s.drop_first().len() ==> white_space(#[trigger] s.drop_first()[k])) && 0
                <= i < s.len() implies white_space(#[trigger] s[i]) by {
            if i > 0 {
                assert(s.drop_first()[i - 1] == s[i]);
            }
        }
    } else if s.len() > 0 {
        assert(!white_space(s[0]));
    }
}

proof fn lemma_trim_end(s: Seq<char>)
    ensures
        trim_end(s).len() == 0 <==> forall|i: int|
            0 <= i < s.len() ==> white_space(#[trigger] s[i]),
    decreases s.len(),
{
    if s.len() > 0 && white_space(s.last()) {
        lemma_trim_end(s.drop_last());
        assert forall|i: int|
            (forall|k: int|
                0 <= k < s.drop_last().len() ==> white_space(#[trigger] s.drop_last()[k])) && 0
                <= i < s.len() implies white_space(#[trigger] s[i]) by {
            if i < s.len() - 1 {
                assert(s.drop_last()[i] == s[i]);
            }
        }
    } else if s.len() > 0 {
        assert(!white_space(s[s.len() - 1]));
    }
}

/// The number that a digit stands for, for lower-case digits up to sixteen.
pub open spec fn digit_value(c: char) -> int {
    if '0' <= c <= '9' {
        c as int - '0' as int
    } else if 'a' <= c <= 'f' {
        c as int - 'a' as int + 10
    } else {
        -1
    }
}

/// The number that a row of digits spells, most significant digit first.
pub open spec fn value_of(digits: Seq<char>, radix: int) -> int
    decreases digits.len(),
{
    if digits.len() == 0 {
        0
    } else {
        value_of(digits.drop_last(), radix) * radix + digit_value(digits.last())
    }
}

/// A row of digits as numbers are written: at least one digit, none that the
/// radix does not have, and no zero in front of others.
pub open spec fn is_numeral(digits: Seq<char>, radix: int) -> bool {
    &&& digits.len() > 0
    &&& forall|i: int| 0 <= i < digits.len() ==> 0 <= digit_value(#[trigger] digits[i]) < radix
    &&& digits.len() > 1 ==> digits[0] != '0'
}

/// The numeral of a number spells that number.
pub proof fn numeral_reads_back(n: nat, radix: nat)
    requires
        2 <= radix <= 16,
    ensures
        is_numeral(numeral(n, radix), radix as int),
        value_of(numeral(n, radix), radix as int) == n,
        n > 0 ==> numeral(n, radix)[0] != '0',
    decreases n,
{
    let text = numeral(n, radix);
    if n < radix {
        assert(text =~= seq![digit(n)]);
        assert(digit_value(digit(n)) == n);
        assert(text.drop_last() =~= Seq::<char>::empty());
        assert(value_of(text.drop_last(), radix as int) == 0);
        assert(0 * (radix as int) == 0) by (nonlinear_arith);
    } else {
        assert(0 < n / radix < n && n % radix < radix) by (nonlinear_arith)
            requires
                radix >= 2,
                n >= radix,
        ;
        let front = numeral(n / radix, radix);
        let last = digit(n % radix);
        numeral_reads_back(n / radix, radix);
        assert(text == front.push(last));
        assert(text.drop_last() =~= front);
        assert(digit_value(last) == n % radix);
        vstd::arithmetic::div_mod::lemma_fundamental_div_mod(n as int, radix as int);
        assert((n / radix) * radix == radix * (n / radix)) by (nonlinear_arith);
        assert(text[0] == front[0]);
        assert forall|i: int| 0 <= i < text.len() implies 0 <= digit_value(#[trigger] text[i])
            < radix by {
            if i < front.len() {
                assert(text[i] == front[i]);
            }
        }
    }
}

/// `digits` is the decimal numeral of `n`.
pub open spec fn spells(digits: Seq<char>, n: int) -> bool {
    is_numeral(digits, 10) && value_of(digits, 10) == n
}

/// Decimal notation spells its number.
pub proof fn decimal_spells(n: nat)
    ensures
        spells(decimal(n), n as int),
{
    numeral_reads_back(n, 10);
}

/// `text` begins with the decimal numeral of `n`, and no digit follows it.
pub open spec fn begins_with_number(text: Seq<char>, n: int) -> bool {
    exists|k: int|
        {
            &&& 0 <= k <= text.len()
            &&& spells(#[trigger] text.take(k), n)
            &&& k < text.len() ==> digit_value(text[k]) < 0
        }
}

/// Two numerals that spell the same number are the same.
pub proof fn numerals_spell_one_way(a: Seq<char>, b: Seq<char>, radix: int)
    requires
        2 <= radix <= 16,
        is_numeral(a, radix),
        is_numeral(b, radix),
        value_of(a, radix) == value_of(b, radix),
    ensures
        a == b,
    decreases a.len(),
{
    lemma_value_bounds(a, radix);
    lemma_value_bounds(b, radix);
    let va = digit_value(a.last());
    let vb = digit_value(b.last());
    assert(a[a.len() - 1] == a.last() && b[b.len() - 1] == b.last());
    let fa = value_of(a.drop_last(), radix);
    let fb = value_of(b.drop_last(), radix);
    assert(va == vb && fa == fb) by (nonlinear_arith)
        requires
            fa * radix + va == fb * radix + vb,
            0 <= va < radix,
            0 <= vb < radix,
    ;
    assert(a.last() == b.last());
    if a.len() > 1 && b.len() > 1 {
        assert(is_numeral(a.drop_last(), radix)) by {
            assert forall|i: int| 0 <= i < a.drop_last().len() implies 0 <= digit_value(
                #[trigger] a.drop_last()[i],
            ) < radix by {
                assert(a.drop_last()[i] == a[i]);
            }
        }
        assert(is_numeral(b.drop_last(), radix)) by {
            assert forall|i: int| 0 <= i < b.drop_last().len() implies 0 <= digit_value(
                #[trigger] b.drop_last()[i],
            ) < radix by {
                assert(b.drop_last()[i] == b[i]);
            }
        }
        numerals_spell_one_way(a.drop_last(), b.drop_last(), radix);
        assert(a =~= a.drop_last().push(a.last()));
        assert(b =~= b.drop_last().push(b.last()));
    } else {
        if a.len() > 1 {
            lemma_front_is_positive(a, radix);
            assert(b.drop_last().len() == 0);
        } else if b.len() > 1 {
            lemma_front_is_positive(b, radix);
            assert(a.drop_last().len() == 0);
        }
        assert(a =~= b);
    }
}

proof fn lemma_value_bounds(s: Seq<char>, radix: int)
    requires
        2 <= radix,
        forall|i: int| 0 <= i < s.len() ==> 0 <= digit_value(#[trigger] s[i]) < radix,
    ensures
        0 <= value_of(s, radix),
        s.len() > 0 && s[0] != '0' ==> 0 < value_of(s, radix),
    decreases s.len(),
{
    if s.len() > 0 {
        let front = s.drop_last();
        assert forall|i: int| 0 <= i < front.len() implies 0 <= digit_value(#[trigger] front[i])
            < radix by {
            assert(front[i] == s[i]);
        }
        lemma_value_bounds(front, radix);
        assert(s[s.len() - 1] == s.last());
        let v = value_of(front, radix);
        assert(0 <= v * radix && (0 < v ==> 0 < v * radix)) by (nonlinear_arith)
            requires
                0 <= v,
                2 <= radix,
        ;
        if front.len() > 0 {
            assert(front[0] == s[0]);
        }
    }
}

proof fn lemma_front_is_positive(s: Seq<char>, radix: int)
    requires
        2 <= radix,
        is_numeral(s, radix),
        s.len() > 1,
    ensures
        0 < value_of(s.drop_last(), radix),
{
    let front = s.drop_last();
    assert forall|i: int| 0 <= i < front.len() implies 0 <= digit_value(#[trigger] front[i])
        < radix by {
        assert(front[i] == s[i]);
    }
    assert(front[0] == s[0]);
    lemma_value_bounds(front, radix);
}

/// Of the ASCII characters exactly the space and the five controls from tab to
/// carriage return are white space.
pub proof fn ascii_white_space(c: char)
    requires
        (c as u32) < 128,
    ensures
        white_space(c) <==> (c == ' ' || '\t' <= c <= '\r'),
{
}

/// Every character of `s` is white space.
pub open spec fn is_blank(s: Seq<char>) -> bool {
    forall|i: int| 0 <= i < s.len() ==> white_space(#[trigger] s[i])
}

/// A text that is empty, or has something other than white space at either end.
pub open spec fn is_tight(s: Seq<char>) -> bool {
    s.len() > 0 ==> !white_space(s[0]) && !white_space(s[s.len() - 1])
}

/// Trimming takes the white space around a text, all of it and nothing else.
pub proof fn trimming_takes_the_margins(front: Seq<char>, body: Seq<char>, back: Seq<char>)
    requires
        is_blank(front),
        is_blank(back),
        is_tight(body),
    ensures
        trim(front + body + back) == body,
    decreases front.len() + back.len(),
{
    if back.len() > 0 {
        let shorter = front + body + back.drop_last();
        assert(front + body + back =~= shorter.push(back.last()));
        assert(white_space(back[back.len() - 1]));
        assert forall|i: int| 0 <= i < back.drop_last().len() implies white_space(
            #[trigger] back.drop_last()[i],
        ) by {
            assert(back.drop_last()[i] == back[i]);
        }
        trimming_takes_the_margins(front, body, back.drop_last());
        trim_ignores_final_white_space(shorter, back.last());
    } else if front.len() > 0 {
        let whole = front + body + back;
        assert(whole.first() == front[0]);
        assert(whole.drop_first() =~= front.drop_first() + body + back);
        assert forall|i: int| 0 <= i < front.drop_first().len() implies white_space(
            #[trigger] front.drop_first()[i],
        ) by {
            assert(front.drop_first()[i] == front[i + 1]);
        }
        trimming_takes_the_margins(front.drop_first(), body, back);
    } else {
        assert(front + body + back =~= body);
    }
}

/// Every text is what trimming leaves of it, with white space around it.
pub proof fn margins_of(s: Seq<char>) -> (margins: (Seq<char>, Seq<char>))
    ensures
        s == margins.0 + trim(s) + margins.1,
        is_blank(margins.0),
        is_blank(margins.1),
        is_tight(trim(s)),
{
    trimming_is_final(s);
    let body = trim_start(s);
    lemma_front_margin(s);
    lemma_back_margin(body);
    let front = s.take(s.len() - body.len());
    let back = body.skip(trim_end(body).len() as int);
    assert(s =~= front + trim(s) + back);
    (front, back)
}

proof fn lemma_front_margin(s: Seq<char>)
    ensures
        trim_start(s).len() <= s.len(),
        trim_start(s) == s.skip(s.len() - trim_start(s).len()),
        is_blank(s.take(s.len() - trim_start(s).len())),
    decreases s.len(),
{
    if s.len() > 0 && white_space(s.first()) {
        let rest = s.drop_first();
        lemma_front_margin(rest);
        let n = s.len() - trim_start(s).len();
        assert(s.skip(n) =~= rest.skip(n - 1));
        assert forall|i: int| 0 <= i < s.take(n).len() implies white_space(
            #[trigger] s.take(n)[i],
        ) by {
            if i > 0 {
                assert(rest.take(n - 1)[i - 1] == s.take(n)[i]);
            }
        }
    } else {
        assert(s.skip(0) =~= s);
    }
}

proof fn lemma_back_margin(s: Seq<char>)
    ensures
        trim_end(s).len() <= s.len(),
        trim_end(s) == s.take(trim_end(s).len() as int),
        is_blank(s.skip(trim_end(s).len() as int)),
    decreases s.len(),
{
    if s.len() > 0 && white_space(s.last()) {
        let rest = s.drop_last();
        lemma_back_margin(rest);
        let n = trim_end(s).len() as int;
        assert(s.take(n) =~= rest.take(n));
        assert forall|i: int| 0 <= i < s.skip(n).len() implies white_space(
            #[trigger] s.skip(n)[i],
        ) by {
            if i < rest.len() - n {
                assert(rest.skip(n)[i] == s.skip(n)[i]);
            } else {
                assert(s.skip(n)[i] == s.last());
            }
        }
    } else {
        assert(s.take(s.len() as int) =~= s);
    }
}

/// Every character of `s` is `c`.
pub open spec fn is_run_of(s: Seq<char>, c: char) -> bool {
    forall|i: int| 0 <= i < s.len() ==> #[trigger] s[i] == c
}

/// The run of `c` at the end of a text is taken off, all of it and nothing else.
pub proof fn final_run_is_taken_off(body: Seq<char>, run: Seq<char>, c: char)
    requires
        is_run_of(run, c),
        body.len() > 0 ==> body[body.len() - 1] != c,
    ensures
        trim_end_matches(body + run, c) == body,
    decreases run.len(),
{
    if run.len() > 0 {
        assert((body + run).drop_last() =~= body + run.drop_last());
        assert((body + run).last() == run[run.len() - 1]);
        assert forall|i: int| 0 <= i < run.drop_last().len() implies #[trigger] run.drop_last()[i]
            == c by {
            assert(run.drop_last()[i] == run[i]);
        }
        final_run_is_taken_off(body, run.drop_last(), c);
    } else {
        assert(body + run =~= body);
    }
}

/// Two texts are equal up to case exactly where they are equally long and at
/// each place hold the same character, or the two cases of an ASCII letter.
pub proof fn case_is_all_that_may_differ(a: Seq<char>, b: Seq<char>)
    ensures
        eq_ignore_ascii_case(a, b) <==> (a.len() == b.len() && forall|i: int|
            0 <= i < a.len() ==> (#[trigger] a[i] == b[i] || is_other_case(a[i], b[i])
                || is_other_case(b[i], a[i]))),
{
    assert forall|x: char, y: char| #[trigger] ascii_lower(x) == #[trigger] ascii_lower(y) <==> (x == y
        || is_other_case(x, y) || is_other_case(y, x)) by {
        lemma_lower(x);
        lemma_lower(y);
    }
    if a.len() == b.len() {
        if eq_ignore_ascii_case(a, b) {
            assert forall|i: int| 0 <= i < a.len() implies (#[trigger] a[i] == b[i] || is_other_case(
                a[i],
                b[i],
            ) || is_other_case(b[i], a[i])) by {
                assert(ascii_lower(a[i]) == ascii_lower(b[i]));
            }
        }
        if forall|i: int|
            0 <= i < a.len() ==> (#[trigger] a[i] == b[i] || is_other_case(a[i], b[i])
                || is_other_case(b[i], a[i])) {
            assert forall|i: int| 0 <= i < a.len() implies ascii_lower(#[trigger] a[i])
                == ascii_lower(b[i]) by {
                assert(a[i] == b[i] || is_other_case(a[i], b[i]) || is_other_case(b[i], a[i]));
            }
        }
    }
}

/// `upper` is an ASCII capital letter and `lower` is its small form.
pub open spec fn is_other_case(upper: char, lower: char) -> bool {
    'A' <= upper <= 'Z' && lower as int == upper as int + 32
}

proof fn lemma_lower(c: char)
    ensures
        ascii_lower(c) as int == if 'A' <= c <= 'Z' {
            c as int + 32
        } else {
            c as int
        },
{
}

} // verus!
