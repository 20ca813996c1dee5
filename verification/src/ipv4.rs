//! IPv4 addresses held as `u32` in network order (first octet most significant).

use vstd::prelude::*;
use crate::text::{
    lemma_split_on_append_plain, lemma_split_on_push_sep, push_char, split_chars, split_on,
    to_chars,
};

verus! {

pub open spec fn is_digit(c: char) -> bool {
    '0' <= c && c <= '9'
}

/// Value of a run of decimal digits.
pub open spec fn decimal_value(s: Seq<char>) -> int
    decreases s.len(),
{
    if s.len() == 0 {
        0
    } else {
        decimal_value(s.drop_last()) * 10 + (s.last() as int - 48)
    }
}

/// One dotted-quad field: one to three ASCII digits, no leading zero, at most 255.
pub open spec fn octet_parse(s: Seq<char>) -> Option<u8> {
    if 1 <= s.len() <= 3 && (forall|i: int| 0 <= i < s.len() ==> is_digit(#[trigger] s[i])) && !(
    s.len() > 1 && s[0] == '0') && decimal_value(s) <= 255 {
        Some(decimal_value(s) as u8)
    } else {
        None
    }
}

/// The IPv4 address a text denotes, as `<Ipv4Addr as FromStr>` accepts it:
/// exactly four fields separated by `.`, each an `octet_parse` field.
pub open spec fn ipv4_parse(text: Seq<char>) -> Option<u32> {
    let p = split_on(text, '.');
    if p.len() == 4 && octet_parse(p[0]) is Some && octet_parse(p[1]) is Some && octet_parse(
        p[2],
    ) is Some && octet_parse(p[3]) is Some {
        Some(
            from_octets(
                octet_parse(p[0])->0,
                octet_parse(p[1])->0,
                octet_parse(p[2])->0,
                octet_parse(p[3])->0,
            ),
        )
    } else {
        None
    }
}

fn parse_octet(s: &[char]) -> (r: Option<u8>)
    ensures
        r == octet_parse(s@),
{
    reveal_with_fuel(decimal_value, 4);
    let n = s.len();
    if n < 1 || n > 3 {
        return None;
    }
    let mut i: usize = 0;
    while i < n
        invariant
            n == s@.len(),
            i <= n,
            forall|j: int| 0 <= j < i ==> is_digit(#[trigger] s@[j]),
        decreases n - i,
    {
        if !('0' <= s[i] && s[i] <= '9') {
            return None;
        }
        i = i + 1;
    }
    if n > 1 && s[0] == '0' {
        return None;
    }
    let mut value: u32 = 0;
    let mut k: usize = 0;
    while k < n
        invariant
            n == s@.len(),
            1 <= n <= 3,
            k <= n,
            forall|j: int| 0 <= j < n ==> is_digit(#[trigger] s@[j]),
            value == decimal_value(s@.subrange(0, k as int)),
            value < 1000,
            value <= if k == 0 { 0int } else if k == 1 { 9int } else if k == 2 { 99 } else { 999 },
        decreases n - k,
    {
        assert(s@.subrange(0, k + 1).drop_last() =~= s@.subrange(0, k as int));
        let d = (s[k] as u32) - 48;
        assert(is_digit(s@[k as int]));
        value = value * 10 + d;
        k = k + 1;
    }
    assert(s@.subrange(0, n as int) =~= s@);
    if value > 255 {
        return None;
    }
    Some(value as u8)
}

/// Parses a dotted-quad IPv4 address.
pub fn parse_ipv4_chars(text: &[char]) -> (r: Option<u32>)
    ensures
        r == ipv4_parse(text@),
{
    let parts = split_chars(text, '.');
    if parts.len() != 4 {
        return None;
    }
    let a = parse_octet(parts[0].as_slice());
    let b = parse_octet(parts[1].as_slice());
    let c = parse_octet(parts[2].as_slice());
    let d = parse_octet(parts[3].as_slice());
    match (a, b, c, d) {
        (Some(a), Some(b), Some(c), Some(d)) => Some(address_from_octets(a, b, c, d)),
        _ => None,
    }
}

/// Parses a dotted-quad IPv4 address (`str::parse::<Ipv4Addr>`).
pub fn parse_ipv4(text: &str) -> (r: Option<u32>)
    ensures
        r == ipv4_parse(text@),
{
    let v = to_chars(text);
    parse_ipv4_chars(v.as_slice())
}

pub open spec fn octet0(a: u32) -> u8 {
    (a / 0x100_0000) as u8
}

pub open spec fn octet1(a: u32) -> u8 {
    ((a / 0x1_0000) % 0x100) as u8
}

pub open spec fn octet2(a: u32) -> u8 {
    ((a / 0x100) % 0x100) as u8
}

pub open spec fn octet3(a: u32) -> u8 {
    (a % 0x100) as u8
}

/// The address with octets `a.b.c.d`.
pub open spec fn from_octets(a: u8, b: u8, c: u8, d: u8) -> u32 {
    (a * 0x100_0000 + b * 0x1_0000 + c * 0x100 + d) as u32
}

/// `Ipv4Addr::is_unspecified`: the address `0.0.0.0`.
pub open spec fn is_unspecified(a: u32) -> bool {
    a == 0
}

/// `Ipv4Addr::is_loopback`: first octet 127.
pub open spec fn is_loopback(a: u32) -> bool {
    octet0(a) == 127
}

/// `Ipv4Addr::is_multicast`: first octet in 224..=239.
pub open spec fn is_multicast(a: u32) -> bool {
    224 <= octet0(a) && octet0(a) <= 239
}

pub open spec fn digit(d: int) -> char {
    (d + 48) as char
}

/// Decimal text of an octet, without leading zeros.
pub open spec fn dec_u8(n: u8) -> Seq<char> {
    if n >= 100 {
        seq![digit((n / 100) as int), digit(((n / 10) % 10) as int), digit((n % 10) as int)]
    } else if n >= 10 {
        seq![digit((n / 10) as int), digit((n % 10) as int)]
    } else {
        seq![digit(n as int)]
    }
}

/// Dotted-decimal text of an address, as `Ipv4Addr`'s `Display` writes it.
pub open spec fn ipv4_text(a: u32) -> Seq<char> {
    dec_u8(octet0(a)) + seq!['.'] + dec_u8(octet1(a)) + seq!['.'] + dec_u8(octet2(a)) + seq!['.']
        + dec_u8(octet3(a))
}

pub fn address_from_octets(a: u8, b: u8, c: u8, d: u8) -> (r: u32)
    ensures
        r == from_octets(a, b, c, d),
        octet0(r) == a,
        octet1(r) == b,
        octet2(r) == c,
        octet3(r) == d,
{
    let r: u32 = (a as u32) * 0x100_0000 + (b as u32) * 0x1_0000 + (c as u32) * 0x100 + (d as u32);
    proof {
        let (a32, b32, c32, d32) = (a as u32, b as u32, c as u32, d as u32);
        assert(r / 0x100_0000 == a32 && (r / 0x1_0000) % 0x100 == b32 && (r / 0x100) % 0x100 == c32
            && r % 0x100 == d32) by (bit_vector)
            requires
                a32 < 0x100,
                b32 < 0x100,
                c32 < 0x100,
                d32 < 0x100,
                r == a32 * 0x100_0000 + b32 * 0x1_0000 + c32 * 0x100 + d32,
        ;
    }
    r
}

/// An address is put back together from its four octets.
pub proof fn lemma_octets_recompose(a: u32)
    ensures
        a == from_octets(octet0(a), octet1(a), octet2(a), octet3(a)),
{
    let b0 = a / 0x100_0000;
    let b1 = (a / 0x1_0000) % 0x100;
    let b2 = (a / 0x100) % 0x100;
    let b3 = a % 0x100;
    assert(b0 < 0x100 && b1 < 0x100 && b2 < 0x100 && b3 < 0x100) by (bit_vector)
        requires
            b0 == a / 0x100_0000,
            b1 == (a / 0x1_0000) % 0x100,
            b2 == (a / 0x100) % 0x100,
            b3 == a % 0x100,
    ;
    assert(a == b0 * 0x100_0000 + b1 * 0x1_0000 + b2 * 0x100 + b3) by (bit_vector)
        requires
            b0 == a / 0x100_0000,
            b1 == (a / 0x1_0000) % 0x100,
            b2 == (a / 0x100) % 0x100,
            b3 == a % 0x100,
    ;
    assert(octet0(a) as u32 == b0);
    assert(octet1(a) as u32 == b1);
    assert(octet2(a) as u32 == b2);
    assert(octet3(a) as u32 == b3);
}

pub fn octets(a: u32) -> (r: (u8, u8, u8, u8))
    ensures
        r == (octet0(a), octet1(a), octet2(a), octet3(a)),
        a == from_octets(r.0, r.1, r.2, r.3),
{
    proof {
        lemma_octets_recompose(a);
    }
    ((a / 0x100_0000) as u8, ((a / 0x1_0000) % 0x100) as u8, ((a / 0x100) % 0x100) as u8, (a
        % 0x100) as u8)
}

fn digit_char(d: u8) -> (c: char)
    requires
        d < 10,
    ensures
        c == digit(d as int),
{
    (d + 48) as char
}

fn push_dec_u8(s: &mut String, n: u8)
    ensures
        final(s)@ == old(s)@ + dec_u8(n),
{
    if n >= 100 {
        push_char(s, digit_char(n / 100));
        push_char(s, digit_char((n / 10) % 10));
        push_char(s, digit_char(n % 10));
    } else if n >= 10 {
        push_char(s, digit_char(n / 10));
        push_char(s, digit_char(n % 10));
    } else {
        push_char(s, digit_char(n));
    }
}

/// Dotted-decimal text of an address (`Ipv4Addr::to_string`).
pub fn ipv4_to_string(a: u32) -> (s: String)
    ensures
        s@ == ipv4_text(a),
{
    let (o0, o1, o2, o3) = octets(a);
    let mut s = String::new();
    push_dec_u8(&mut s, o0);
    push_char(&mut s, '.');
    push_dec_u8(&mut s, o1);
    push_char(&mut s, '.');
    push_dec_u8(&mut s, o2);
    push_char(&mut s, '.');
    push_dec_u8(&mut s, o3);
    s
}

pub fn address_is_unspecified(a: u32) -> (b: bool)
    ensures
        b == is_unspecified(a),
{
    a == 0
}

pub fn address_is_loopback(a: u32) -> (b: bool)
    ensures
        b == is_loopback(a),
{
    a / 0x100_0000 == 127
}

pub fn address_is_multicast(a: u32) -> (b: bool)
    ensures
        b == is_multicast(a),
{
    let o = a / 0x100_0000;
    224 <= o && o <= 239
}

/// The text of an octet reads back as that octet.
proof fn lemma_octet_round_trip(n: u8)
    ensures
        octet_parse(dec_u8(n)) == Some(n),
        forall|i: int| 0 <= i < dec_u8(n).len() ==> is_digit(#[trigger] dec_u8(n)[i]),
        forall|i: int| 0 <= i < dec_u8(n).len() ==> #[trigger] dec_u8(n)[i] != '.',
{
    let s = dec_u8(n);
    reveal_with_fuel(decimal_value, 4);
    if n >= 100 {
        let (h, t, u) = ((n / 100) as int, ((n / 10) % 10) as int, (n % 10) as int);
        assert(h * 100 + t * 10 + u == n) by (nonlinear_arith)
            requires
                h == n / 100,
                t == (n / 10) % 10,
                u == n % 10,
                0 <= n < 256,
        ;
        assert(h <= 2 && t <= 9 && u <= 9);
        assert(s.drop_last().drop_last().drop_last() =~= Seq::<char>::empty());
        assert(decimal_value(s) == (h * 10 + t) * 10 + u);
    } else if n >= 10 {
        let (t, u) = ((n / 10) as int, (n % 10) as int);
        assert(t * 10 + u == n);
        assert(s.drop_last().drop_last() =~= Seq::<char>::empty());
        assert(decimal_value(s) == t * 10 + u);
    } else {
        assert(s.drop_last() =~= Seq::<char>::empty());
    }
}

/// Writing an address in dotted-decimal and reading it back gives the
/// address.
pub proof fn lemma_ipv4_text_round_trip(a: u32)
    ensures
        ipv4_parse(ipv4_text(a)) == Some(a),
{
    let (d0, d1, d2, d3) = (
        dec_u8(octet0(a)),
        dec_u8(octet1(a)),
        dec_u8(octet2(a)),
        dec_u8(octet3(a)),
    );
    lemma_octet_round_trip(octet0(a));
    lemma_octet_round_trip(octet1(a));
    lemma_octet_round_trip(octet2(a));
    lemma_octet_round_trip(octet3(a));
    let e = Seq::<char>::empty();
    lemma_split_on_append_plain(e, d0, '.');
    assert(e + d0 =~= d0);
    let p0 = seq![e].update(0, e + d0);
    assert(p0 =~= seq![d0]);
    lemma_split_on_push_sep(d0, '.');
    lemma_split_on_append_plain(d0.push('.'), d1, '.');
    lemma_split_on_push_sep(d0.push('.') + d1, '.');
    lemma_split_on_append_plain((d0.push('.') + d1).push('.'), d2, '.');
    lemma_split_on_push_sep((d0.push('.') + d1).push('.') + d2, '.');
    lemma_split_on_append_plain(((d0.push('.') + d1).push('.') + d2).push('.'), d3, '.');
    let t = ((d0.push('.') + d1).push('.') + d2).push('.') + d3;
    assert(ipv4_text(a) =~= t);
    assert(split_on(t, '.') =~= seq![d0, d1, d2, d3]);
    lemma_octets_recompose(a);
}

} // verus!
