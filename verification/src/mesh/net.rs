//! Textual form of IPv4 addresses.

use vstd::prelude::*;
use vstd::string::*;

use crate::mesh::vault::Ipv4;
use crate::text;
use crate::text::{chars_of, split_ranges};

verus! {

/// The value of one decimal octet: one to three digits, no leading zero, at
/// most 255.
pub open spec fn octet(p: Seq<char>) -> Option<u32> {
    if 1 <= p.len() <= 3 && text::all_digits(p) && !(p.len() > 1 && p[0] == '0')
        && text::digits_value(p) <= 255 {
        Some(text::digits_value(p) as u32)
    } else {
        None
    }
}

/// The address that text stands for: four octets with dots between them.
pub open spec fn parsed_ipv4(s: Seq<char>) -> Option<Ipv4> {
    let p = text::split_on(s, '.');
    if p.len() != 4 {
        None
    } else {
        match (octet(p[0]), octet(p[1]), octet(p[2]), octet(p[3])) {
            (Some(a), Some(b), Some(c), Some(d)) => Some(address(a, b, c, d)),
            _ => None,
        }
    }
}

/// The address with the given octets.
pub open spec fn address(a: u32, b: u32, c: u32, d: u32) -> Ipv4 {
    Ipv4((a * 16777216 + b * 65536 + c * 256 + d) as u32)
}

/// Parses one octet of `s`.
fn parse_octet(s: &Vec<char>, from: usize, to: usize) -> (r: Option<u32>)
    requires
        from <= to <= s@.len(),
    ensures
        r == octet(s@.subrange(from as int, to as int)),
        r matches Some(v) ==> v <= 255,
{
    let ghost p = s@.subrange(from as int, to as int);
    if from == to || to - from > 3 {
        return None;
    }
    assert(p[0] == s@[from as int]);
    let mut value: u32 = 0;
    let mut i: usize = from;
    assert(p.take(0) =~= Seq::empty());
    while i < to
        invariant
            from <= i <= to <= s@.len(),
            to - from <= 3,
            p == s@.subrange(from as int, to as int),
            forall|j: int| 0 <= j < i - from ==> text::is_digit(#[trigger] p[j]),
            value == text::digits_value(p.take(i - from)),
            i - from == 0 ==> value == 0,
            i - from == 1 ==> value <= 9,
            i - from == 2 ==> value <= 99,
            i - from == 3 ==> value <= 999,
        decreases to - i,
    {
        let c: char = s[i];
        assert(p[i - from] == c);
        if !('0' <= c && c <= '9') {
            assert(!text::is_digit(p[i - from]));
            return None;
        }
        let v: u32 = c as u32 - '0' as u32;
        proof {
            let t = p.take(i - from + 1);
            assert(t.drop_last() =~= p.take(i - from));
            assert(t.last() == c);
        }
        value = value * 10 + v;
        i = i + 1;
    }
    assert(p.take(i - from) =~= p);
    if to - from > 1 && s[from] == '0' {
        return None;
    }
    if value > 255 {
        return None;
    }
    Some(value)
}

/// Parses an address.
pub fn parse_ipv4(s: &str) -> (r: Option<Ipv4>)
    ensures
        r == parsed_ipv4(s@),
{
    let chars = chars_of(s);
    let parts = split_ranges(&chars, '.');
    if parts.len() != 4 {
        return None;
    }
    let (a0, a1) = parts[0];
    let (b0, b1) = parts[1];
    let (c0, c1) = parts[2];
    let (d0, d1) = parts[3];
    match (
        parse_octet(&chars, a0, a1),
        parse_octet(&chars, b0, b1),
        parse_octet(&chars, c0, c1),
        parse_octet(&chars, d0, d1),
    ) {
        (Some(a), Some(b), Some(c), Some(d)) => Some(
            Ipv4(a * 16777216 + b * 65536 + c * 256 + d),
        ),
        _ => None,
    }
}

/// Textual form of an address.
pub open spec fn ipv4_text(ip: Ipv4) -> Seq<char> {
    text::decimal((ip.0 / 16777216) as nat) + "."@ + text::decimal(((ip.0 / 65536) % 256) as nat)
        + "."@ + text::decimal(((ip.0 / 256) % 256) as nat) + "."@ + text::decimal(
        (ip.0 % 256) as nat,
    )
}

/// Renders an address.
pub fn render_ipv4(ip: Ipv4) -> (r: String)
    ensures
        r@ == ipv4_text(ip),
{
    let mut s = text::decimal_string((ip.0 / 16777216) as u64);
    s.append(".");
    text::push_decimal(&mut s, ((ip.0 / 65536) % 256) as u64);
    s.append(".");
    text::push_decimal(&mut s, ((ip.0 / 256) % 256) as u64);
    s.append(".");
    text::push_decimal(&mut s, (ip.0 % 256) as u64);
    s
}

/// A number below 256 renders as an octet.
proof fn lemma_octet(n: nat)
    requires
        n < 256,
    ensures
        octet(text::decimal(n)) == Some(n as u32),
        !text::decimal(n).contains('.'),
{
    text::law_decimal_round_trip(n);
    let s = text::decimal(n);
    reveal_with_fuel(text::decimal, 4);
    assert forall|i: int| 0 <= i < s.len() implies s[i] != '.' by {
        assert(text::is_digit(s[i]));
    }
}

/// Four pieces joined by dots.
pub proof fn lemma_join4(a: Seq<char>, b: Seq<char>, c: Seq<char>, d: Seq<char>)
    ensures
        text::join(seq![a, b, c, d], '.') == a + "."@ + b + "."@ + c + "."@ + d,
{
    reveal_strlit(".");
    let p1 = seq![a];
    let p2 = seq![a, b];
    let p3 = seq![a, b, c];
    assert(seq![a, b, c, d].drop_last() =~= p3);
    assert(p3.drop_last() =~= p2);
    assert(p2.drop_last() =~= p1);
    assert(text::join(p1, '.') == a);
    assert(text::join(p2, '.') =~= a + "."@ + b);
    assert(text::join(p3, '.') =~= a + "."@ + b + "."@ + c);
    assert(text::join(seq![a, b, c, d], '.') =~= a + "."@ + b + "."@ + c + "."@ + d);
}

/// Parsing the textual form of an address gives the address back.
pub proof fn law_ipv4_round_trip(ip: Ipv4)
    ensures
        parsed_ipv4(ipv4_text(ip)) == Some(ip),
{
    let x = ip.0;
    let a = (x / 16777216) as nat;
    let b = ((x / 65536) % 256) as nat;
    let c = ((x / 256) % 256) as nat;
    let d = (x % 256) as nat;
    lemma_octet(a);
    lemma_octet(b);
    lemma_octet(c);
    lemma_octet(d);
    let parts = seq![text::decimal(a), text::decimal(b), text::decimal(c), text::decimal(d)];
    assert(text::split_on(ipv4_text(ip), '.') == parts) by {
        lemma_join4(parts[0], parts[1], parts[2], parts[3]);
        text::law_split_join(parts, '.');
    }
    lemma_octets_make(x);
    assert(parsed_ipv4(ipv4_text(ip)) == Some(address(a as u32, b as u32, c as u32, d as u32)));
}

/// An address is made of its octets.
proof fn lemma_octets_make(x: u32)
    ensures
        (x / 16777216) * 16777216 + ((x / 65536) % 256) * 65536 + ((x / 256) % 256) * 256 + x % 256
            == x,
{
    assert(x / 65536 == (x / 16777216) * 256 + (x / 65536) % 256);
    assert(x / 256 == (x / 65536) * 256 + (x / 256) % 256);
}

} // verus!
