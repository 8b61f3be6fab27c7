//! Model of IPv4 addresses and CIDR networks as plain 32-bit values: parsing
//! from dotted-decimal text, canonical rendering, and network containment.

use vstd::prelude::*;

use crate::text::split_char;
use crate::text::views_of;

verus! {

/// One IPv4 address, stored as its 32-bit numeric value (first octet in the
/// highest byte).
#[derive(Clone, Copy, Debug, PartialEq, Eq, Structural, Hash, PartialOrd, Ord)]
pub struct Ipv4Address {
    pub bits: u32,
}

/// One IPv4 CIDR network. Well-formed values keep the host bits of `addr`
/// zero; parsing normalizes the address to the network address.
#[derive(Clone, Copy, Debug, PartialEq, Eq, Structural, Hash, PartialOrd, Ord)]
pub struct Ipv4Network {
    pub addr: Ipv4Address,
    pub prefix_len: u8,
}

pub open spec fn is_digit(c: char) -> bool {
    48 <= (c as u32) && (c as u32) <= 57
}

pub open spec fn digit_val(c: char) -> u32 {
    (c as u32 - 48) as u32
}

pub open spec fn digit_char(n: u32) -> char {
    ((n + 48) as u8) as char
}

/// Decimal digits of `n` (meaningful for `n <= 255`): no leading zeros.
pub open spec fn dec_digits(n: u32) -> Seq<char> {
    if n < 10 {
        seq![digit_char(n)]
    } else if n < 100 {
        seq![digit_char(n / 10), digit_char(n % 10)]
    } else {
        seq![digit_char(n / 100), digit_char((n / 10) % 10), digit_char(n % 10)]
    }
}

/// Canonical dotted-decimal rendering of an IPv4 address value.
pub open spec fn ipv4_chars(ip: u32) -> Seq<char> {
    dec_digits(ip >> 24) + seq!['.'] + dec_digits((ip >> 16) & 0xff) + seq!['.']
        + dec_digits((ip >> 8) & 0xff) + seq!['.'] + dec_digits(ip & 0xff)
}

/// A decimal octet token: 1-3 digits, no leading zero, value at most 255.
pub open spec fn spec_parse_octet(s: Seq<char>) -> Option<u32> {
    if s.len() == 1 && is_digit(s[0]) {
        Some(digit_val(s[0]))
    } else if s.len() == 2 && is_digit(s[0]) && is_digit(s[1]) && s[0] != '0' {
        Some((10 * digit_val(s[0]) + digit_val(s[1])) as u32)
    } else if s.len() == 3 && is_digit(s[0]) && is_digit(s[1]) && is_digit(s[2]) && s[0] != '0'
        && 100 * digit_val(s[0]) + 10 * digit_val(s[1]) + digit_val(s[2]) <= 255 {
        Some((100 * digit_val(s[0]) + 10 * digit_val(s[1]) + digit_val(s[2])) as u32)
    } else {
        None
    }
}

/// Strict dotted-decimal IPv4 syntax: four octet tokens joined by dots.
pub open spec fn spec_parse_ipv4(s: Seq<char>) -> Option<u32> {
    let parts = split_char(s, '.');
    if parts.len() == 4 && spec_parse_octet(parts[0]) is Some && spec_parse_octet(parts[1]) is Some
        && spec_parse_octet(parts[2]) is Some && spec_parse_octet(parts[3]) is Some {
        Some(
            ((spec_parse_octet(parts[0])->0 << 24) | (spec_parse_octet(parts[1])->0 << 16) | (
            spec_parse_octet(parts[2])->0 << 8) | spec_parse_octet(parts[3])->0) as u32,
        )
    } else {
        None
    }
}

/// The network mask with `p` leading one bits.
pub open spec fn net_mask(p: u8) -> u32 {
    if p == 0 {
        0u32
    } else {
        (0xffff_ffffu32 << ((32 - p) as u32)) as u32
    }
}

impl Ipv4Address {
    /// Build an address from its four dotted-decimal octets.
    pub fn from_octets(a: u8, b: u8, c: u8, d: u8) -> (r: Ipv4Address)
        ensures
            r.bits == ((a as u32) << 24 | (b as u32) << 16 | (c as u32) << 8 | (d as u32)),
    {
        Ipv4Address {
            bits: (a as u32) << 24 | (b as u32) << 16 | (c as u32) << 8 | (d as u32),
        }
    }
}

impl Ipv4Network {
    /// Host bits are zero and the prefix length is in range.
    pub open spec fn wf(&self) -> bool {
        self.prefix_len <= 32 && self.addr.bits & net_mask(self.prefix_len) == self.addr.bits
    }

    /// Whether this network contains the given address.
    pub open spec fn spec_contains_ip(&self, ip: Ipv4Address) -> bool {
        ip.bits & net_mask(self.prefix_len) == self.addr.bits
    }

    /// Whether this network contains the whole of `other`.
    pub open spec fn spec_contains_net(&self, other: Ipv4Network) -> bool {
        self.prefix_len <= other.prefix_len && other.addr.bits & net_mask(self.prefix_len)
            == self.addr.bits
    }

    pub fn contains_ip(&self, ip: &Ipv4Address) -> (r: bool)
        requires
            self.wf(),
        ensures
            r == self.spec_contains_ip(*ip),
    {
        ip.bits & mask_exec(self.prefix_len) == self.addr.bits
    }

    pub fn contains_net(&self, other: &Ipv4Network) -> (r: bool)
        requires
            self.wf(),
            other.wf(),
        ensures
            r == self.spec_contains_net(*other),
    {
        self.prefix_len <= other.prefix_len && other.addr.bits & mask_exec(self.prefix_len)
            == self.addr.bits
    }
}

pub fn mask_exec(p: u8) -> (r: u32)
    requires
        p <= 32,
    ensures
        r == net_mask(p),
{
    if p == 0 {
        0
    } else {
        0xffff_ffffu32 << ((32 - p) as u32)
    }
}

/// A CIDR prefix-length token: 1-3 digits (leading zeros allowed), value at
/// most 32.
pub open spec fn spec_parse_prefix(s: Seq<char>) -> Option<u8> {
    if 1 <= s.len() <= 3 && (forall|j: int| 0 <= j < s.len() ==> is_digit(s[j])) {
        let v = if s.len() == 1 {
            digit_val(s[0])
        } else if s.len() == 2 {
            (10 * digit_val(s[0]) + digit_val(s[1])) as u32
        } else {
            (100 * digit_val(s[0]) + 10 * digit_val(s[1]) + digit_val(s[2])) as u32
        };
        if v <= 32 {
            Some(v as u8)
        } else {
            None
        }
    } else {
        None
    }
}

/// CIDR syntax `addr/prefix`; the address is normalized to the network
/// address (host bits cleared).
pub open spec fn spec_parse_net(s: Seq<char>) -> Option<Ipv4Network> {
    let parts = split_char(s, '/');
    if parts.len() == 2 && spec_parse_ipv4(parts[0]) is Some && spec_parse_prefix(parts[1]) is Some {
        let bits = spec_parse_ipv4(parts[0])->0;
        let p = spec_parse_prefix(parts[1])->0;
        Some(Ipv4Network { addr: Ipv4Address { bits: bits & net_mask(p) }, prefix_len: p })
    } else {
        None
    }
}

/// Canonical rendering of a network: `addr/prefix`.
pub open spec fn net_chars(n: Ipv4Network) -> Seq<char> {
    ipv4_chars(n.addr.bits) + seq!['/'] + dec_digits(n.prefix_len as u32)
}

pub fn is_digit_exec(c: char) -> (r: bool)
    ensures
        r == is_digit(c),
{
    48 <= (c as u32) && (c as u32) <= 57
}

pub fn digit_val_exec(c: char) -> (r: u32)
    requires
        is_digit(c),
    ensures
        r == digit_val(c),
{
    (c as u32) - 48
}

pub fn parse_octet(s: &Vec<char>) -> (r: Option<u32>)
    ensures
        r == spec_parse_octet(s@),
{
    if s.len() == 1 {
        if is_digit_exec(s[0]) {
            Some(digit_val_exec(s[0]))
        } else {
            None
        }
    } else if s.len() == 2 {
        if is_digit_exec(s[0]) && is_digit_exec(s[1]) && s[0] != '0' {
            Some(10 * digit_val_exec(s[0]) + digit_val_exec(s[1]))
        } else {
            None
        }
    } else if s.len() == 3 {
        if is_digit_exec(s[0]) && is_digit_exec(s[1]) && is_digit_exec(s[2]) && s[0] != '0' {
            let v = 100 * digit_val_exec(s[0]) + 10 * digit_val_exec(s[1]) + digit_val_exec(s[2]);
            if v <= 255 {
                Some(v)
            } else {
                None
            }
        } else {
            None
        }
    } else {
        None
    }
}

pub fn parse_ipv4(s: &Vec<char>) -> (r: Option<Ipv4Address>)
    ensures
        r matches Some(ip) ==> spec_parse_ipv4(s@) == Some(ip.bits),
        r is None ==> spec_parse_ipv4(s@) is None,
{
    let parts = crate::text::split_on_char(s, '.');
    if parts.len() == 4 {
        assert(parts@[0]@ == split_char(s@, '.')[0]);
        assert(parts@[1]@ == split_char(s@, '.')[1]);
        assert(parts@[2]@ == split_char(s@, '.')[2]);
        assert(parts@[3]@ == split_char(s@, '.')[3]);
        let a = parse_octet(&parts[0]);
        let b = parse_octet(&parts[1]);
        let c = parse_octet(&parts[2]);
        let d = parse_octet(&parts[3]);
        match (a, b, c, d) {
            (Some(a), Some(b), Some(c), Some(d)) => Some(
                Ipv4Address { bits: (a << 24) | (b << 16) | (c << 8) | d },
            ),
            _ => None,
        }
    } else {
        None
    }
}

pub fn parse_net(s: &Vec<char>) -> (r: Option<Ipv4Network>)
    ensures
        r == spec_parse_net(s@),
        r matches Some(n) ==> n.wf(),
{
    let parts = crate::text::split_on_char(s, '/');
    let r = if parts.len() == 2 {
        assert(parts@[0]@ == split_char(s@, '/')[0]);
        assert(parts@[1]@ == split_char(s@, '/')[1]);
        let addr = parse_ipv4(&parts[0]);
        let p = parse_prefix(&parts[1]);
        match (addr, p) {
            (Some(addr), Some(p)) => {
                let m = mask_exec(p);
                Some(Ipv4Network { addr: Ipv4Address { bits: addr.bits & m }, prefix_len: p })
            },
            _ => None,
        }
    } else {
        None
    };
    proof {
        if r is Some {
            let bits = r->0.addr.bits;
            let p = r->0.prefix_len;
            assert(p <= 32);
            lemma_mask_idempotent(spec_parse_ipv4(split_char(s@, '/')[0])->0, p);
        }
    }
    r
}

pub fn parse_prefix(s: &Vec<char>) -> (r: Option<u8>)
    ensures
        r == spec_parse_prefix(s@),
{
    if s.len() < 1 || s.len() > 3 {
        return None;
    }
    for i in 0..s.len()
        invariant
            forall|j: int| 0 <= j < i ==> is_digit(s@[j]),
    {
        if !is_digit_exec(s[i]) {
            return None;
        }
    }
    let v: u32 = if s.len() == 1 {
        digit_val_exec(s[0])
    } else if s.len() == 2 {
        10 * digit_val_exec(s[0]) + digit_val_exec(s[1])
    } else {
        100 * digit_val_exec(s[0]) + 10 * digit_val_exec(s[1]) + digit_val_exec(s[2])
    };
    if v <= 32 {
        Some(v as u8)
    } else {
        None
    }
}

pub proof fn lemma_mask_idempotent(x: u32, p: u8)
    requires
        p <= 32,
    ensures
        (x & net_mask(p)) & net_mask(p) == x & net_mask(p),
{
    let m = net_mask(p);
    assert((x & m) & m == x & m) by (bit_vector);
}

/// Append the decimal digits of `n` (at most 255) to a character vector.
pub fn push_decimal(v: &mut Vec<char>, n: u32)
    requires
        n < 256,
    ensures
        final(v)@ == old(v)@ + dec_digits(n),
{
    if n < 10 {
        v.push(((n + 48) as u8) as char);
        assert(v@ =~= old(v)@ + dec_digits(n));
    } else if n < 100 {
        let d0 = n / 10;
        let d1 = n % 10;
        assert(d0 < 10 && d1 < 10) by (nonlinear_arith)
            requires
                10 <= n < 100,
                d0 == n / 10,
                d1 == n % 10,
        ;
        v.push(((d0 + 48) as u8) as char);
        v.push(((d1 + 48) as u8) as char);
        assert(v@ =~= old(v)@ + dec_digits(n));
    } else {
        let d0 = n / 100;
        let d1 = (n / 10) % 10;
        let d2 = n % 10;
        assert(d0 < 10 && d1 < 10 && d2 < 10) by (nonlinear_arith)
            requires
                100 <= n < 256,
                d0 == n / 100,
                d1 == (n / 10) % 10,
                d2 == n % 10,
        ;
        v.push(((d0 + 48) as u8) as char);
        v.push(((d1 + 48) as u8) as char);
        v.push(((d2 + 48) as u8) as char);
        assert(v@ =~= old(v)@ + dec_digits(n));
    }
}

/// Render an address in dotted-decimal form.
pub fn ipv4_to_chars(ip: &Ipv4Address) -> (r: Vec<char>)
    ensures
        r@ == ipv4_chars(ip.bits),
{
    let x = ip.bits;
    let a = x >> 24;
    let b = (x >> 16) & 0xff;
    let c = (x >> 8) & 0xff;
    let d = x & 0xff;
    assert(a < 256 && b < 256 && c < 256 && d < 256) by (bit_vector)
        requires
            a == x >> 24 && b == (x >> 16) & 0xff && c == (x >> 8) & 0xff && d == x & 0xff,
    ;
    let mut r: Vec<char> = Vec::new();
    push_decimal(&mut r, a);
    r.push('.');
    push_decimal(&mut r, b);
    r.push('.');
    push_decimal(&mut r, c);
    r.push('.');
    push_decimal(&mut r, d);
    assert(r@ =~= ipv4_chars(ip.bits));
    r
}

/// Render a network as `addr/prefix`.
pub fn net_to_chars(n: &Ipv4Network) -> (r: Vec<char>)
    requires
        n.prefix_len <= 32,
    ensures
        r@ == net_chars(*n),
{
    let mut r = ipv4_to_chars(&n.addr);
    r.push('/');
    push_decimal(&mut r, n.prefix_len as u32);
    assert(r@ =~= net_chars(*n));
    r
}

/// The decimal rendering of `n < 256` consists of digit characters only and
/// has no leading zero.
pub proof fn lemma_dec_digits_props(n: u32)
    requires
        n < 256,
    ensures
        1 <= dec_digits(n).len() <= 3,
        forall|j: int| 0 <= j < dec_digits(n).len() ==> is_digit(#[trigger] dec_digits(n)[j]),
        dec_digits(n).len() >= 2 ==> dec_digits(n)[0] != '0',
        n >= 32 ==> dec_digits(n).len() >= 2,
{
    if n < 10 {
    } else if n < 100 {
        assert(1 <= n / 10 < 10 && n % 10 < 10) by (nonlinear_arith)
            requires
                10 <= n < 100,
        ;
        assert(digit_char(n / 10) as u32 >= 49);
    } else {
        assert(1 <= n / 100 < 10 && (n / 10) % 10 < 10 && n % 10 < 10) by (nonlinear_arith)
            requires
                100 <= n < 256,
        ;
        assert(digit_char(n / 100) as u32 >= 49);
    }
}

/// Parsing the canonical decimal rendering of an octet value gives it back.
pub proof fn lemma_octet_round(n: u32)
    requires
        n < 256,
    ensures
        spec_parse_octet(dec_digits(n)) == Some(n),
{
    lemma_dec_digits_props(n);
    if n < 10 {
        assert(digit_val(digit_char(n)) == n);
    } else if n < 100 {
        let d0 = n / 10;
        let d1 = n % 10;
        assert(1 <= d0 < 10 && d1 < 10 && 10 * d0 + d1 == n) by (nonlinear_arith)
            requires
                10 <= n < 100,
                d0 == n / 10,
                d1 == n % 10,
        ;
        assert(digit_val(digit_char(d0)) == d0 && digit_val(digit_char(d1)) == d1);
        assert(digit_char(d0) != '0');
    } else {
        let d0 = n / 100;
        let d1 = (n / 10) % 10;
        let d2 = n % 10;
        assert(1 <= d0 < 10 && d1 < 10 && d2 < 10 && 100 * d0 + 10 * d1 + d2 == n)
            by (nonlinear_arith)
            requires
                100 <= n < 256,
                d0 == n / 100,
                d1 == (n / 10) % 10,
                d2 == n % 10,
        ;
        assert(digit_val(digit_char(d0)) == d0 && digit_val(digit_char(d1)) == d1 && digit_val(
            digit_char(d2),
        ) == d2);
        assert(digit_char(d0) != '0');
    }
}

/// Parsing the canonical decimal rendering of a prefix length gives it back.
pub proof fn lemma_prefix_round(p: u8)
    requires
        p <= 32,
    ensures
        spec_parse_prefix(dec_digits(p as u32)) == Some(p),
{
    let n = p as u32;
    lemma_dec_digits_props(n);
    if n < 10 {
        assert(digit_val(digit_char(n)) == n);
    } else {
        let d0 = n / 10;
        let d1 = n % 10;
        assert(1 <= d0 < 10 && d1 < 10 && 10 * d0 + d1 == n) by (nonlinear_arith)
            requires
                10 <= n < 100,
                d0 == n / 10,
                d1 == n % 10,
        ;
        assert(digit_val(digit_char(d0)) == d0 && digit_val(digit_char(d1)) == d1);
    }
}

/// Every character of a dotted-decimal rendering is a digit or a dot.
pub proof fn lemma_ipv4_chars_shape(ip: u32)
    ensures
        forall|j: int|
            0 <= j < ipv4_chars(ip).len() ==> (is_digit(#[trigger] ipv4_chars(ip)[j]) || ipv4_chars(
                ip,
            )[j] == '.'),
{
    let a = ip >> 24;
    let b = (ip >> 16) & 0xff;
    let c = (ip >> 8) & 0xff;
    let d = ip & 0xff;
    assert(a < 256 && b < 256 && c < 256 && d < 256) by (bit_vector)
        requires
            a == ip >> 24 && b == (ip >> 16) & 0xff && c == (ip >> 8) & 0xff && d == ip & 0xff,
    ;
    lemma_dec_digits_props(a);
    lemma_dec_digits_props(b);
    lemma_dec_digits_props(c);
    lemma_dec_digits_props(d);
}

/// Parsing the canonical rendering of an IPv4 address gives it back.
#[verifier::rlimit(30)]
pub proof fn lemma_ipv4_round(ip: u32)
    ensures
        spec_parse_ipv4(ipv4_chars(ip)) == Some(ip),
{
    let a = ip >> 24;
    let b = (ip >> 16) & 0xff;
    let c = (ip >> 8) & 0xff;
    let d = ip & 0xff;
    assert(a < 256 && b < 256 && c < 256 && d < 256) by (bit_vector)
        requires
            a == ip >> 24 && b == (ip >> 16) & 0xff && c == (ip >> 8) & 0xff && d == ip & 0xff,
    ;
    lemma_dec_digits_props(a);
    lemma_dec_digits_props(b);
    lemma_dec_digits_props(c);
    lemma_dec_digits_props(d);
    let pa = dec_digits(a);
    let pb = dec_digits(b);
    let pc = dec_digits(c);
    let pd = dec_digits(d);
    let s = ipv4_chars(ip);
    let r2 = pc + seq!['.'] + pd;
    let r1 = pb + seq!['.'] + r2;
    assert(s =~= pa + seq!['.'] + r1);
    crate::text::lemma_split_char_step(pa, r1, '.');
    crate::text::lemma_split_char_step(pb, r2, '.');
    crate::text::lemma_split_char_step(pc, pd, '.');
    crate::text::lemma_split_char_whole(pd, '.');
    assert(split_char(s, '.') =~= seq![pa, pb, pc, pd]);
    lemma_octet_round(a);
    lemma_octet_round(b);
    lemma_octet_round(c);
    lemma_octet_round(d);
    assert(((ip >> 24) << 24) | ((((ip >> 16) & 0xff)) << 16) | ((((ip >> 8) & 0xff)) << 8) | (ip
        & 0xff) == ip) by (bit_vector);
}

/// Parsing the canonical rendering of a well-formed network gives it back.
pub proof fn lemma_net_round(n: Ipv4Network)
    requires
        n.wf(),
    ensures
        spec_parse_net(net_chars(n)) == Some(n),
{
    let ip = n.addr.bits;
    let p = n.prefix_len;
    lemma_ipv4_chars_shape(ip);
    lemma_dec_digits_props(p as u32);
    let s = net_chars(n);
    assert forall|j: int| 0 <= j < ipv4_chars(ip).len() implies ipv4_chars(ip)[j] != '/' by {
        assert(is_digit(ipv4_chars(ip)[j]) || ipv4_chars(ip)[j] == '.');
    }
    crate::text::lemma_split_char_step(ipv4_chars(ip), dec_digits(p as u32), '/');
    assert forall|j: int|
        0 <= j < dec_digits(p as u32).len() implies #[trigger] dec_digits(p as u32)[j] != '/' by {
        assert(is_digit(dec_digits(p as u32)[j]));
    }
    crate::text::lemma_split_char_whole(dec_digits(p as u32), '/');
    assert(split_char(s, '/') =~= seq![ipv4_chars(ip), dec_digits(p as u32)]);
    lemma_ipv4_round(ip);
    lemma_prefix_round(p);
}

} // verus!
