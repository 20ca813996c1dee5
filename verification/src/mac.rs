//! MAC address texts (`AA:BB:CC:DD:EE:FF`, dashes accepted).

use vstd::prelude::*;
use crate::text::{split_chars, split_on, to_chars, to_upper_char, upper, upper_char};

verus! {

pub open spec fn is_hex(c: char) -> bool {
    ('0' <= c && c <= '9') || ('a' <= c && c <= 'f') || ('A' <= c && c <= 'F')
}

pub open spec fn dash_to_colon_char(c: char) -> char {
    if c == '-' {
        ':'
    } else {
        c
    }
}

/// `s.replace('-', ":")`.
pub open spec fn dash_to_colon(s: Seq<char>) -> Seq<char> {
    s.map_values(|c: char| dash_to_colon_char(c))
}

/// Six colon-separated pairs of hex digits once dashes read as colons.
pub open spec fn mac_like(s: Seq<char>) -> bool {
    let p = split_on(dash_to_colon(s), ':');
    p.len() == 6 && forall|i: int|
        0 <= i < 6 ==> (#[trigger] p[i]).len() == 2 && is_hex(p[i][0]) && is_hex(p[i][1])
}

/// Dashes read as colons, upper-cased.
pub open spec fn mac_normal(s: Seq<char>) -> Seq<char> {
    upper(dash_to_colon(s))
}

fn is_hex_char(c: char) -> (b: bool)
    ensures
        b == is_hex(c),
{
    ('0' <= c && c <= '9') || ('a' <= c && c <= 'f') || ('A' <= c && c <= 'F')
}

fn dashes_to_colons(v: &[char]) -> (r: Vec<char>)
    ensures
        r@ == dash_to_colon(v@),
{
    let mut r: Vec<char> = Vec::new();
    let mut i: usize = 0;
    while i < v.len()
        invariant
            i <= v@.len(),
            r@ =~= dash_to_colon(v@.subrange(0, i as int)),
        decreases v@.len() - i,
    {
        let c = v[i];
        r.push(if c == '-' { ':' } else { c });
        i = i + 1;
    }
    assert(v@.subrange(0, v@.len() as int) =~= v@);
    r
}

/// Whether `value` reads as a MAC address.
pub fn is_mac_address(value: &str) -> (b: bool)
    ensures
        b == mac_like(value@),
{
    let v = to_chars(value);
    let normalized = dashes_to_colons(v.as_slice());
    let parts = split_chars(normalized.as_slice(), ':');
    if parts.len() != 6 {
        return false;
    }
    let mut i: usize = 0;
    while i < 6
        invariant
            parts@.len() == 6,
            split_on(dash_to_colon(value@), ':').len() == 6,
            forall|k: int|
                0 <= k < 6 ==> #[trigger] parts@[k]@ == split_on(dash_to_colon(value@), ':')[k],
            i <= 6,
            forall|k: int|
                0 <= k < i ==> (#[trigger] split_on(dash_to_colon(value@), ':')[k]).len() == 2
                    && is_hex(split_on(dash_to_colon(value@), ':')[k][0]) && is_hex(
                    split_on(dash_to_colon(value@), ':')[k][1],
                ),
        decreases 6 - i,
    {
        let part = &parts[i];
        assert(part@ == split_on(dash_to_colon(value@), ':')[i as int]);
        if part.len() != 2 || !is_hex_char(part[0]) || !is_hex_char(part[1]) {
            return false;
        }
        i = i + 1;
    }
    true
}

/// `value.replace('-', ":").to_ascii_uppercase()`.
pub fn normalize_mac(value: &str) -> (r: String)
    ensures
        r@ == mac_normal(value@),
{
    let v = to_chars(value);
    let mut r = String::new();
    let mut i: usize = 0;
    while i < v.len()
        invariant
            v@ == value@,
            i <= v@.len(),
            r@ =~= mac_normal(v@.subrange(0, i as int)),
        decreases v@.len() - i,
    {
        let c = v[i];
        crate::text::push_char(&mut r, to_upper_char(if c == '-' { ':' } else { c }));
        i = i + 1;
    }
    assert(v@.subrange(0, v@.len() as int) =~= v@);
    r
}

/// The upper-case hex digit of `n < 16`.
pub open spec fn hex_digit(n: u8) -> char {
    if n < 10 {
        (48 + n) as char
    } else {
        (55 + n) as char
    }
}

/// A byte as two upper-case hex digits (`{:02X}`).
pub open spec fn hex_byte(b: u8) -> Seq<char> {
    seq![hex_digit(b / 16), hex_digit(b % 16)]
}

/// An adapter's hardware address as text: its first six bytes as
/// `AA-BB-CC-DD-EE-FF` when it has six or more, else `N/A`.
pub open spec fn mac_text(addr: Seq<u8>) -> Seq<char> {
    if addr.len() >= 6 {
        hex_byte(addr[0]) + seq!['-'] + hex_byte(addr[1]) + seq!['-'] + hex_byte(addr[2]) + seq!['-']
            + hex_byte(addr[3]) + seq!['-'] + hex_byte(addr[4]) + seq!['-'] + hex_byte(addr[5])
    } else {
        "N/A"@
    }
}

fn hex_digit_char(n: u8) -> (c: char)
    requires
        n < 16,
    ensures
        c == hex_digit(n),
{
    if n < 10 {
        (48 + n) as char
    } else {
        (55 + n) as char
    }
}

/// Formats the hardware address of an adapter (its bytes up to the length
/// that the adapter reports).
pub fn format_mac_address(addr: &[u8]) -> (s: String)
    ensures
        s@ == mac_text(addr@),
{
    if addr.len() < 6 {
        let r = String::from_str("N/A");
        proof {
            reveal_strlit("N/A");
        }
        return r;
    }
    let mut s = String::new();
    let mut i: usize = 0;
    while i < 6
        invariant
            addr@.len() >= 6,
            i <= 6,
            i == 0 ==> s@ == Seq::<char>::empty(),
            i == 1 ==> s@ == hex_byte(addr@[0]),
            i == 2 ==> s@ == hex_byte(addr@[0]) + seq!['-'] + hex_byte(addr@[1]),
            i == 3 ==> s@ == hex_byte(addr@[0]) + seq!['-'] + hex_byte(addr@[1]) + seq!['-']
                + hex_byte(addr@[2]),
            i == 4 ==> s@ == hex_byte(addr@[0]) + seq!['-'] + hex_byte(addr@[1]) + seq!['-']
                + hex_byte(addr@[2]) + seq!['-'] + hex_byte(addr@[3]),
            i == 5 ==> s@ == hex_byte(addr@[0]) + seq!['-'] + hex_byte(addr@[1]) + seq!['-']
                + hex_byte(addr@[2]) + seq!['-'] + hex_byte(addr@[3]) + seq!['-'] + hex_byte(
                addr@[4],
            ),
            i == 6 ==> s@ == mac_text(addr@),
        decreases 6 - i,
    {
        let ghost before = s@;
        if i > 0 {
            crate::text::push_char(&mut s, '-');
        }
        let b = addr[i];
        crate::text::push_char(&mut s, hex_digit_char(b / 16));
        crate::text::push_char(&mut s, hex_digit_char(b % 16));
        if i > 0 {
            assert(s@ =~= before + seq!['-'] + hex_byte(b));
        } else {
            assert(s@ =~= hex_byte(b));
        }
        i = i + 1;
    }
    s
}

} // verus!
