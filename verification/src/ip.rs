//! IP addresses as plain numbers, with their text forms.

use vstd::prelude::*;
use vstd::slice::slice_subrange;

use crate::assoc::Key;
use crate::bytes::find_in;
use crate::text::{
    all_digits, all_graphic, graphic, chars_of, decimal, decimal_value, digit, find_double,
    hex_char, joined, lemma_decimal, lemma_splits, parse_number, pieces, push_all, push_str, split,
    splits, string_of, to_decimal, to_hex_char,
};

verus! {

/// An IPv4 address.
#[derive(Debug, Clone, Copy, PartialEq, Eq, Hash, Structural)]
pub struct Ipv4Addr {
    /// The address, its first octet being the highest byte.
    pub bits: u32,
}

/// An IPv6 address.
#[derive(Debug, Clone, Copy, PartialEq, Eq, Hash, Structural)]
pub struct Ipv6Addr {
    /// The address, its first group being the highest sixteen bits.
    pub bits: u128,
}

/// An IPv4 or IPv6 address.
#[derive(Debug, Clone, Copy, PartialEq, Eq, Hash, Structural)]
pub enum IpAddr {
    /// An IPv4 address.
    V4(Ipv4Addr),
    /// An IPv6 address.
    V6(Ipv6Addr),
}

impl View for IpAddr {
    type V = IpAddr;

    open spec fn view(&self) -> IpAddr {
        *self
    }
}

impl Key for IpAddr {
    fn same(&self, other: &Self) -> (r: bool) {
        *self == *other
    }
}

// ---------------------------------------------------------------------------
// Networks
// ---------------------------------------------------------------------------

/// Whether two IPv4 addresses agree in their first `prefix` bits. A prefix longer
/// than an address matches nothing.
pub open spec fn in_net4(net: Ipv4Addr, prefix: u8, ip: Ipv4Addr) -> bool {
    prefix == 0 || (prefix <= 32 && net.bits >> ((32 - prefix) as u32) == ip.bits >> ((32 - prefix)
        as u32))
}

/// Whether two IPv6 addresses agree in their first `prefix` bits. A prefix longer
/// than an address matches nothing.
pub open spec fn in_net6(net: Ipv6Addr, prefix: u8, ip: Ipv6Addr) -> bool {
    prefix == 0 || (prefix <= 128 && net.bits >> ((128 - prefix) as u32) == ip.bits >> ((128
        - prefix) as u32))
}

/// Whether `ip` is in the IPv4 network `net`/`prefix`.
pub fn cidr4(net: Ipv4Addr, prefix: u8, ip: Ipv4Addr) -> (r: bool)
    ensures
        r == in_net4(net, prefix, ip),
{
    if prefix == 0 {
        return true;
    }
    if prefix > 32 {
        return false;
    }
    let shift: u32 = 32 - prefix as u32;
    net.bits >> shift == ip.bits >> shift
}

/// Whether `ip` is in the IPv6 network `net`/`prefix`.
pub fn cidr6(net: Ipv6Addr, prefix: u8, ip: Ipv6Addr) -> (r: bool)
    ensures
        r == in_net6(net, prefix, ip),
{
    if prefix == 0 {
        return true;
    }
    if prefix > 128 {
        return false;
    }
    let shift: u32 = 128 - prefix as u32;
    net.bits >> shift == ip.bits >> shift
}

// ---------------------------------------------------------------------------
// IPv4 text
// ---------------------------------------------------------------------------

/// The value of an octet in text: one to three decimal digits without a leading
/// zero, at most 255.
pub open spec fn octet_value(s: Seq<char>) -> Option<nat> {
    if 1 <= s.len() <= 3 && all_digits(s) && (s.len() == 1 || s[0] != '0') && decimal_value(s)
        <= 255 {
        Some(decimal_value(s))
    } else {
        None
    }
}

/// The IPv4 address that a text denotes: four octets with dots between them.
pub open spec fn ipv4_value(s: Seq<char>) -> Option<nat> {
    let p = splits(s, '.');
    if p.len() == 4 && octet_value(p[0]) is Some && octet_value(p[1]) is Some && octet_value(
        p[2],
    ) is Some && octet_value(p[3]) is Some {
        Some(
            octet_value(p[0])->0 * 0x100_0000 + octet_value(p[1])->0 * 0x1_0000 + octet_value(
                p[2],
            )->0 * 0x100 + octet_value(p[3])->0,
        )
    } else {
        None
    }
}

/// Read an octet.
fn parse_octet(s: &[char]) -> (r: Option<u32>)
    ensures
        match (r, octet_value(s@)) {
            (Some(x), Some(y)) => x == y && x <= 255,
            (None, None) => true,
            _ => false,
        },
{
    let n = s.len();
    if n < 1 || n > 3 || (n > 1 && s[0] == '0') {
        return None;
    }
    if s[0] == '+' {
        return None;
    }
    match parse_number(s, 255) {
        Some(x) => Some(x as u32),
        None => None,
    }
}

/// Read an IPv4 address from text.
fn parse_ipv4(s: &[char]) -> (r: Option<u32>)
    ensures
        match (r, ipv4_value(s@)) {
            (Some(x), Some(y)) => x == y,
            (None, None) => true,
            _ => false,
        },
{
    let p = split(s, '.');
    let ghost all = splits(s@, '.');
    assert(all.len() == p@.len());
    if p.len() != 4 {
        return None;
    }
    assert(all[0] == p@[0]@ && all[1] == p@[1]@ && all[2] == p@[2]@ && all[3] == p@[3]@);
    match (
        parse_octet(p[0].as_slice()),
        parse_octet(p[1].as_slice()),
        parse_octet(p[2].as_slice()),
        parse_octet(p[3].as_slice()),
    ) {
        (Some(a), Some(b), Some(c), Some(d)) => Some(
            a * 0x100_0000 + b * 0x1_0000 + c * 0x100 + d,
        ),
        _ => None,
    }
}

/// The text of an IPv4 address: its octets in decimal with dots between them.
pub open spec fn ipv4_text(bits: u32) -> Seq<char> {
    decimal((bits / 0x100_0000) as nat) + seq!['.'] + decimal((bits / 0x1_0000 % 0x100) as nat)
        + seq!['.'] + decimal((bits / 0x100 % 0x100) as nat) + seq!['.'] + decimal(
        (bits % 0x100) as nat,
    )
}

impl Ipv4Addr {
    /// The address of four octets.
    pub fn new(a: u8, b: u8, c: u8, d: u8) -> (r: Ipv4Addr)
        ensures
            r.bits == a * 0x100_0000 + b * 0x1_0000 + c * 0x100 + d,
    {
        Ipv4Addr {
            bits: a as u32 * 0x100_0000 + b as u32 * 0x1_0000 + c as u32 * 0x100 + d as u32,
        }
    }

    /// Read an address from text.
    pub fn parse(s: &str) -> (r: Option<Ipv4Addr>)
        ensures
            match (r, ipv4_value(s@)) {
                (Some(x), Some(y)) => x.bits == y,
                (None, None) => true,
                _ => false,
            },
    {
        let chars = chars_of(s);
        match parse_ipv4(chars.as_slice()) {
            Some(bits) => Some(Ipv4Addr { bits }),
            None => None,
        }
    }

    /// The address as text.
    pub fn to_string(&self) -> (r: String)
        ensures
            r@ == ipv4_text(self.bits),
    {
        let text = ipv4_chars(self.bits);
        string_of(text.as_slice())
    }
}

/// The text of an IPv4 address.
fn ipv4_chars(bits: u32) -> (r: Vec<char>)
    ensures
        r@ == ipv4_text(bits),
{
    let mut out = to_decimal((bits / 0x100_0000) as u64);
    out.push('.');
    let b = to_decimal((bits / 0x1_0000 % 0x100) as u64);
    push_all(&mut out, b.as_slice());
    out.push('.');
    let c = to_decimal((bits / 0x100 % 0x100) as u64);
    push_all(&mut out, c.as_slice());
    out.push('.');
    let d = to_decimal((bits % 0x100) as u64);
    push_all(&mut out, d.as_slice());
    assert(out@ =~= ipv4_text(bits));
    out
}

// ---------------------------------------------------------------------------
// IPv6 text
// ---------------------------------------------------------------------------

/// The value of a hexadecimal digit, in either case.
pub open spec fn hex_value(c: char) -> Option<nat> {
    if '0' <= c && c <= '9' {
        Some((c as u32 - '0' as u32) as nat)
    } else if 'a' <= c && c <= 'f' {
        Some((c as u32 - 'a' as u32 + 10) as nat)
    } else if 'A' <= c && c <= 'F' {
        Some((c as u32 - 'A' as u32 + 10) as nat)
    } else {
        None
    }
}

/// The number that a sequence of hexadecimal digits denotes.
pub open spec fn hex_number(s: Seq<char>) -> Option<nat>
    decreases s.len(),
{
    if s.len() == 0 {
        Some(0nat)
    } else {
        match (hex_number(s.drop_last()), hex_value(s.last())) {
            (Some(n), Some(d)) => Some(n * 16 + d),
            _ => None,
        }
    }
}

/// The value of a group in text: one to four hexadecimal digits.
pub open spec fn group_value(s: Seq<char>) -> Option<nat> {
    if 1 <= s.len() <= 4 {
        hex_number(s)
    } else {
        None
    }
}

/// The groups that colon-separated pieces denote, the first `n` of them: each a
/// hexadecimal group.
pub open spec fn plain_groups(p: Seq<Seq<char>>, n: int) -> Option<Seq<nat>>
    decreases n,
{
    if n <= 0 {
        Some(Seq::empty())
    } else {
        match (plain_groups(p, n - 1), group_value(p[n - 1])) {
            (Some(g), Some(x)) => Some(g.push(x)),
            _ => None,
        }
    }
}

/// The groups that a part of an address denotes: an empty part has none; otherwise
/// colon-separated hexadecimal groups, where the last piece may be an IPv4 address
/// (`v4`), which is two groups.
pub open spec fn part_groups(s: Seq<char>, v4: bool) -> Option<Seq<nat>> {
    if s.len() == 0 {
        Some(Seq::empty())
    } else {
        let p = splits(s, ':');
        let last = p.len() - 1;
        match plain_groups(p, last) {
            None => None,
            Some(g) => if v4 && ipv4_value(p[last]) is Some {
                Some(
                    g.push(ipv4_value(p[last])->0 / 0x1_0000).push(
                        ipv4_value(p[last])->0 % 0x1_0000,
                    ),
                )
            } else {
                match group_value(p[last]) {
                    Some(x) => Some(g.push(x)),
                    None => None,
                }
            },
        }
    }
}

/// The number made of sixteen-bit groups, the first being the highest.
pub open spec fn groups_number(g: Seq<nat>) -> nat
    decreases g.len(),
{
    if g.len() == 0 {
        0
    } else {
        groups_number(g.drop_last()) * 0x1_0000 + g.last()
    }
}

/// A number of zero groups.
pub open spec fn zero_groups(n: int) -> Seq<nat> {
    Seq::new(n as nat, |i: int| 0nat)
}

/// Two colons.
pub open spec fn double_colon() -> Seq<char> {
    seq![':', ':']
}

/// The eight groups of an IPv6 address in text: eight groups, or at most seven
/// around one `::`, which stands for the zero groups that are missing. An IPv4
/// address may stand for the last two groups, but not before the `::`.
pub open spec fn ipv6_groups(s: Seq<char>) -> Option<Seq<nat>> {
    match find_in(s, double_colon()) {
        None => match part_groups(s, true) {
            Some(g) => if g.len() == 8 {
                Some(g)
            } else {
                None
            },
            None => None,
        },
        Some(i) => match (part_groups(s.take(i), false), part_groups(s.skip(i + 2), true)) {
            (Some(head), Some(tail)) => if head.len() + tail.len() <= 7 {
                Some(head + zero_groups(8 - head.len() - tail.len()) + tail)
            } else {
                None
            },
            _ => None,
        },
    }
}

/// The IPv6 address that a text denotes.
pub open spec fn ipv6_value(s: Seq<char>) -> Option<nat> {
    match ipv6_groups(s) {
        Some(g) => Some(groups_number(g)),
        None => None,
    }
}

/// Groups in machine words, as numbers.
spec fn wide(g: Seq<u16>) -> Seq<nat> {
    g.map_values(|x: u16| x as nat)
}

/// Read a group.
fn parse_group(s: &[char]) -> (r: Option<u16>)
    ensures
        match (r, group_value(s@)) {
            (Some(x), Some(y)) => x == y,
            (None, None) => true,
            _ => false,
        },
{
    let n = s.len();
    if n < 1 || n > 4 {
        return None;
    }
    let mut acc: u32 = 0;
    let mut i: usize = 0;
    while i < n
        invariant
            i <= n <= 4,
            n == s@.len(),
            hex_number(s@.take(i as int)) == Some(acc as nat),
            i == 0 ==> acc == 0,
            i == 1 ==> acc < 0x10,
            i == 2 ==> acc < 0x100,
            i == 3 ==> acc < 0x1000,
            i == 4 ==> acc < 0x1_0000,
        decreases n - i,
    {
        assert(s@.take(i + 1).drop_last() =~= s@.take(i as int));
        let c = s[i];
        let d: u32 = if '0' <= c && c <= '9' {
            c as u32 - '0' as u32
        } else if 'a' <= c && c <= 'f' {
            c as u32 - 'a' as u32 + 10
        } else if 'A' <= c && c <= 'F' {
            c as u32 - 'A' as u32 + 10
        } else {
            proof {
                lemma_hex_fault(s@, i + 1);
            }
            return None;
        };
        acc = acc * 16 + d;
        i = i + 1;
    }
    assert(s@.take(n as int) =~= s@);
    Some(acc as u16)
}

proof fn lemma_hex_fault(s: Seq<char>, i: int)
    requires
        0 <= i <= s.len(),
        hex_number(s.take(i)) is None,
    ensures
        hex_number(s) is None,
    decreases s.len(),
{
    if i == s.len() {
        assert(s.take(i) =~= s);
    } else {
        assert(s.drop_last().take(i) =~= s.take(i));
        lemma_hex_fault(s.drop_last(), i);
    }
}

proof fn lemma_group_fault(p: Seq<Seq<char>>, i: int, n: int)
    requires
        i <= n,
        plain_groups(p, i) is None,
    ensures
        plain_groups(p, n) is None,
    decreases n - i,
{
    if i < n {
        lemma_group_fault(p, i, n - 1);
    }
}

/// Read a part of an IPv6 address.
fn parse_part(s: &[char], v4: bool) -> (r: Option<Vec<u16>>)
    ensures
        match (r, part_groups(s@, v4)) {
            (Some(x), Some(y)) => wide(x@) == y,
            (None, None) => true,
            _ => false,
        },
{
    let mut out: Vec<u16> = Vec::new();
    assert(wide(out@) =~= Seq::empty());
    if s.len() == 0 {
        return Some(out);
    }
    let p = split(s, ':');
    let ghost all = splits(s@, ':');
    proof {
        lemma_splits(s@, ':');
        assert(all.len() == p@.len());
    }
    let last = p.len() - 1;
    let mut i: usize = 0;
    while i < last
        invariant
            i <= last,
            last == p@.len() - 1,
            all == pieces(p@),
            all == splits(s@, ':'),
            s@.len() > 0,
            plain_groups(all, i as int) == Some(wide(out@)),
        decreases last - i,
    {
        assert(all[i as int] == p@[i as int]@);
        match parse_group(p[i].as_slice()) {
            Some(g) => {
                let ghost before = out@;
                assert(wide(before.push(g)) =~= wide(before).push(g as nat));
                out.push(g);
            },
            None => {
                proof {
                    lemma_group_fault(all, i + 1, last as int);
                }
                return None;
            },
        }
        i = i + 1;
    }
    assert(all[last as int] == p@[last as int]@);
    let ghost before = out@;
    if v4 {
        if let Some(bits) = parse_ipv4(p[last].as_slice()) {
            let hi = (bits / 0x1_0000) as u16;
            let lo = (bits % 0x1_0000) as u16;
            out.push(hi);
            out.push(lo);
            assert(wide(out@) =~= wide(before).push(hi as nat).push(lo as nat));
            return Some(out);
        }
    }
    match parse_group(p[last].as_slice()) {
        Some(g) => {
            assert(wide(before.push(g)) =~= wide(before).push(g as nat));
            out.push(g);
            Some(out)
        },
        None => None,
    }
}

/// Read the eight groups of an IPv6 address.
fn parse_ipv6_groups(s: &[char]) -> (r: Option<Vec<u16>>)
    ensures
        match (r, ipv6_groups(s@)) {
            (Some(x), Some(y)) => wide(x@) == y && x@.len() == 8,
            (None, None) => true,
            _ => false,
        },
{
    let n = s.len();
    match find_double(s, ':') {
        None => match parse_part(s, true) {
            Some(g) => {
                assert(wide(g@).len() == g@.len());
                if g.len() == 8 {
                    Some(g)
                } else {
                    None
                }
            },
            None => None,
        },
        Some(i) => match (
            parse_part(slice_subrange(s, 0, i), false),
            parse_part(slice_subrange(s, i + 2, n), true),
        ) {
            (Some(head), Some(tail)) => {
                assert(wide(head@).len() == head@.len());
                assert(wide(tail@).len() == tail@.len());
                if head.len() > 7 || tail.len() > 7 - head.len() {
                    return None;
                }
                let zeros = 8 - head.len() - tail.len();
                let ghost h = head@;
                let mut out = head;
                let mut k: usize = 0;
                while k < zeros
                    invariant
                        k <= zeros,
                        wide(out@) == wide(h) + zero_groups(k as int),
                    decreases zeros - k,
                {
                    let ghost before = out@;
                    proof {
                        assert(wide(before.push(0u16)) =~= wide(before).push(0nat));
                        assert(wide(before).push(0nat) =~= wide(h) + zero_groups(k + 1));
                    }
                    out.push(0);
                    k = k + 1;
                }
                let mut j: usize = 0;
                let ghost start = out@;
                assert(tail@.take(0) =~= Seq::empty());
                while j < tail.len()
                    invariant
                        j <= tail@.len(),
                        out@ == start + tail@.take(j as int),
                    decreases tail.len() - j,
                {
                    assert(tail@.take(j + 1) =~= tail@.take(j as int).push(tail@[j as int]));
                    out.push(tail[j]);
                    assert(out@ =~= start + tail@.take(j + 1));
                    j = j + 1;
                }
                assert(tail@.take(tail@.len() as int) =~= tail@);
                assert(wide(start + tail@) =~= wide(start) + wide(tail@));
                assert(out@.len() == 8) by {
                    assert(wide(out@).len() == out@.len());
                }
                Some(out)
            },
            _ => None,
        },
    }
}

/// The groups of an IPv6 address, the first being the highest.
pub open spec fn address_groups(bits: u128, n: nat) -> Seq<nat>
    decreases n,
{
    if n == 0 {
        Seq::empty()
    } else {
        address_groups(bits / 0x1_0000, (n - 1) as nat).push((bits % 0x1_0000) as nat)
    }
}

/// The length of the run of zero groups at the start of `g`.
pub open spec fn zero_run(g: Seq<nat>) -> nat
    decreases g.len(),
{
    if g.len() > 0 && g[0] == 0 {
        1 + zero_run(g.drop_first())
    } else {
        0
    }
}

/// Where the longest run of zero groups starts, the first of equal ones, among the
/// starts below `n`.
pub open spec fn longest_run(g: Seq<nat>, n: nat) -> int
    decreases n,
{
    if n <= 1 {
        0
    } else {
        let best = longest_run(g, (n - 1) as nat);
        if zero_run(g.skip(n - 1)) > zero_run(g.skip(best)) {
            n - 1
        } else {
            best
        }
    }
}

/// A number in lowercase hexadecimal, without leading zeros.
pub open spec fn hex_text(n: nat) -> Seq<char>
    decreases n,
{
    if n < 16 {
        seq![hex_char(n)]
    } else {
        hex_text(n / 16).push(hex_char(n % 16))
    }
}

/// Groups in hexadecimal with colons between them.
pub open spec fn groups_text(g: Seq<nat>) -> Seq<char> {
    joined(g.map_values(|x: nat| hex_text(x)), seq![':'])
}

/// The text of an IPv6 address (RFC 5952): an IPv4-mapped address is `::ffff:` and
/// the IPv4 address; any other is its groups, where the first longest run of two or
/// more zero groups is written `::`.
pub open spec fn ipv6_text(bits: u128) -> Seq<char> {
    let g = address_groups(bits, 8);
    let start = longest_run(g, 8);
    let len = zero_run(g.skip(start));
    if bits / 0x1_0000_0000 == 0xffff {
        "::ffff:"@ + ipv4_text((bits % 0x1_0000_0000) as u32)
    } else if len > 1 {
        groups_text(g.take(start)) + double_colon() + groups_text(g.skip(start + len))
    } else {
        groups_text(g)
    }
}

/// A number in lowercase hexadecimal, without leading zeros.
fn to_hex_text(n: u16) -> (r: Vec<char>)
    ensures
        r@ == hex_text(n as nat),
    decreases n,
{
    let mut out: Vec<char> = if n < 16 {
        Vec::new()
    } else {
        to_hex_text(n / 16)
    };
    out.push(to_hex_char((n % 16) as u8));
    assert(n < 16 ==> out@ =~= seq![hex_char(n as nat)]);
    out
}

/// The groups of an IPv6 address.
fn to_groups(bits: u128) -> (r: Vec<u16>)
    ensures
        wide(r@) == address_groups(bits, 8),
        r@.len() == 8,
{
    let g7 = (bits % 0x1_0000) as u16;
    let b6 = bits / 0x1_0000;
    let g6 = (b6 % 0x1_0000) as u16;
    let b5 = b6 / 0x1_0000;
    let g5 = (b5 % 0x1_0000) as u16;
    let b4 = b5 / 0x1_0000;
    let g4 = (b4 % 0x1_0000) as u16;
    let b3 = b4 / 0x1_0000;
    let g3 = (b3 % 0x1_0000) as u16;
    let b2 = b3 / 0x1_0000;
    let g2 = (b2 % 0x1_0000) as u16;
    let b1 = b2 / 0x1_0000;
    let g1 = (b1 % 0x1_0000) as u16;
    let b0 = b1 / 0x1_0000;
    let g0 = (b0 % 0x1_0000) as u16;
    let out: Vec<u16> = vec![g0, g1, g2, g3, g4, g5, g6, g7];
    proof {
        reveal_with_fuel(address_groups, 9);
        assert(out@ =~= seq![g0, g1, g2, g3, g4, g5, g6, g7]);
        assert(wide(out@) =~= address_groups(bits, 8));
    }
    out
}

/// The length of the run of zero groups at an index.
fn run_at(g: &Vec<u16>, start: usize) -> (r: usize)
    requires
        start <= g@.len(),
    ensures
        r == zero_run(wide(g@).skip(start as int)),
        start + r <= g@.len(),
{
    let ghost w = wide(g@);
    let mut i: usize = start;
    while i < g.len() && g[i] == 0
        invariant
            start <= i <= g@.len(),
            w == wide(g@),
            zero_run(w.skip(start as int)) == (i - start) + zero_run(w.skip(i as int)),
        decreases g.len() - i,
    {
        assert(w.skip(i as int).drop_first() =~= w.skip(i + 1));
        i = i + 1;
    }
    i - start
}

/// Groups in hexadecimal with colons between them.
fn write_groups(g: &Vec<u16>, from: usize, to: usize) -> (r: Vec<char>)
    requires
        from <= to <= g@.len(),
    ensures
        r@ == groups_text(wide(g@).subrange(from as int, to as int)),
{
    let ghost part = wide(g@).subrange(from as int, to as int);
    let ghost texts = part.map_values(|x: nat| hex_text(x));
    let mut out: Vec<char> = Vec::new();
    let mut i: usize = from;
    while i < to
        invariant
            from <= i <= to <= g@.len(),
            part == wide(g@).subrange(from as int, to as int),
            texts == part.map_values(|x: nat| hex_text(x)),
            out@ == joined(texts.take(i - from), seq![':']),
        decreases to - i,
    {
        proof {
            assert(texts.take(i - from + 1).drop_last() =~= texts.take(i - from));
            assert(texts.take(i - from + 1).last() == hex_text(g@[i as int] as nat));
        }
        if i > from {
            out.push(':');
        }
        let t = to_hex_text(g[i]);
        push_all(&mut out, t.as_slice());
        assert(out@ =~= joined(texts.take(i - from + 1), seq![':']));
        i = i + 1;
    }
    assert(texts.take(to - from) =~= texts);
    out
}

impl Ipv6Addr {
    /// Read an address from text.
    pub fn parse(s: &str) -> (r: Option<Ipv6Addr>)
        ensures
            match (r, ipv6_value(s@)) {
                (Some(x), Some(y)) => x.bits == y,
                (None, None) => true,
                _ => false,
            },
    {
        let chars = chars_of(s);
        match parse_ipv6_groups(chars.as_slice()) {
            Some(g) => {
                let mut acc: u128 = 0;
                let ghost w = wide(g@);
                assert(w.len() == 8);
                let mut i: usize = 0;
                while i < 8
                    invariant
                        i <= 8,
                        g@.len() == 8,
                        w == wide(g@),
                        acc == groups_number(w.take(i as int)),
                        i == 0 ==> acc == 0,
                        i == 1 ==> acc < 0x1_0000,
                        i == 2 ==> acc < 0x1_0000_0000,
                        i == 3 ==> acc < 0x1_0000_0000_0000,
                        i == 4 ==> acc < 0x1_0000_0000_0000_0000,
                        i == 5 ==> acc < 0x1_0000_0000_0000_0000_0000,
                        i == 6 ==> acc < 0x1_0000_0000_0000_0000_0000_0000,
                        i == 7 ==> acc < 0x1_0000_0000_0000_0000_0000_0000_0000,
                    decreases 8 - i,
                {
                    assert(w.take(i + 1).drop_last() =~= w.take(i as int));
                    acc = acc * 0x1_0000 + g[i] as u128;
                    i = i + 1;
                }
                assert(w.take(8) =~= w);
                Some(Ipv6Addr { bits: acc })
            },
            None => None,
        }
    }

    /// The address as text, in the canonical style of RFC 5952.
    pub fn to_string(&self) -> (r: String)
        ensures
            r@ == ipv6_text(self.bits),
    {
        let bits = self.bits;
        if bits / 0x1_0000_0000 == 0xffff {
            let mut out: Vec<char> = Vec::new();
            push_str(&mut out, "::ffff:");
            let v4 = ipv4_chars((bits % 0x1_0000_0000) as u32);
            push_all(&mut out, v4.as_slice());
            assert(out@ =~= ipv6_text(bits));
            return string_of(out.as_slice());
        }
        let g = to_groups(bits);
        let ghost w = wide(g@);
        let mut best: usize = 0;
        let mut len: usize = run_at(&g, 0);
        let mut i: usize = 1;
        while i < 8
            invariant
                1 <= i <= 8,
                g@.len() == 8,
                w == wide(g@),
                best < 8,
                best == longest_run(w, i as nat),
                len == zero_run(w.skip(best as int)),
                best + len <= 8,
            decreases 8 - i,
        {
            let run = run_at(&g, i);
            if run > len {
                best = i;
                len = run;
            }
            i = i + 1;
        }
        if len > 1 {
            let mut out = write_groups(&g, 0, best);
            out.push(':');
            out.push(':');
            let tail = write_groups(&g, best + len, 8);
            push_all(&mut out, tail.as_slice());
            proof {
                assert(w.subrange(0, best as int) =~= w.take(best as int));
                assert(w.subrange(best + len, 8) =~= w.skip(best + len));
                assert(out@ =~= ipv6_text(bits));
            }
            string_of(out.as_slice())
        } else {
            let out = write_groups(&g, 0, 8);
            assert(w.subrange(0, 8) =~= w);
            string_of(out.as_slice())
        }
    }
}

/// The text of an address.
pub open spec fn ip_text(ip: IpAddr) -> Seq<char> {
    match ip {
        IpAddr::V4(v4) => ipv4_text(v4.bits),
        IpAddr::V6(v6) => ipv6_text(v6.bits),
    }
}

/// The address of either family that a text denotes.
pub open spec fn ip_value(s: Seq<char>) -> Option<IpAddr> {
    match (ipv4_value(s), ipv6_value(s)) {
        (Some(bits), _) => Some(IpAddr::V4(Ipv4Addr { bits: bits as u32 })),
        (None, Some(bits)) => Some(IpAddr::V6(Ipv6Addr { bits: bits as u128 })),
        (None, None) => None,
    }
}

proof fn lemma_ipv4_text_is_graphic(bits: u32)
    ensures
        all_graphic(ipv4_text(bits)),
{
    let a = decimal((bits / 0x100_0000) as nat);
    let b = decimal((bits / 0x1_0000 % 0x100) as nat);
    let c = decimal((bits / 0x100 % 0x100) as nat);
    let d = decimal((bits % 0x100) as nat);
    lemma_decimal((bits / 0x100_0000) as nat);
    lemma_decimal((bits / 0x1_0000 % 0x100) as nat);
    lemma_decimal((bits / 0x100 % 0x100) as nat);
    lemma_decimal((bits % 0x100) as nat);
    assert forall|i: int| 0 <= i < a.len() implies graphic(#[trigger] a[i]) by {
        assert(digit(a[i]));
    }
    assert forall|i: int| 0 <= i < b.len() implies graphic(#[trigger] b[i]) by {
        assert(digit(b[i]));
    }
    assert forall|i: int| 0 <= i < c.len() implies graphic(#[trigger] c[i]) by {
        assert(digit(c[i]));
    }
    assert forall|i: int| 0 <= i < d.len() implies graphic(#[trigger] d[i]) by {
        assert(digit(d[i]));
    }
}

proof fn lemma_hex_text_is_graphic(n: nat)
    ensures
        all_graphic(hex_text(n)),
    decreases n,
{
    if n >= 16 {
        lemma_hex_text_is_graphic(n / 16);
    }
}

proof fn lemma_groups_text_is_graphic(g: Seq<nat>)
    ensures
        all_graphic(groups_text(g)),
    decreases g.len(),
{
    let parts = g.map_values(|x: nat| hex_text(x));
    if g.len() > 0 {
        lemma_hex_text_is_graphic(g.last());
        lemma_groups_text_is_graphic(g.drop_last());
        assert(parts.drop_last() =~= g.drop_last().map_values(|x: nat| hex_text(x)));
        assert(parts.last() == hex_text(g.last()));
    }
}

/// An address in text holds marks only.
pub proof fn lemma_ip_text_is_graphic(ip: IpAddr)
    ensures
        all_graphic(ip_text(ip)),
{
    match ip {
        IpAddr::V4(v4) => {
            lemma_ipv4_text_is_graphic(v4.bits);
        },
        IpAddr::V6(v6) => {
            let g = address_groups(v6.bits, 8);
            let start = longest_run(g, 8);
            let len = zero_run(g.skip(start));
            reveal_strlit("::ffff:");
            lemma_ipv4_text_is_graphic((v6.bits % 0x1_0000_0000) as u32);
            lemma_groups_text_is_graphic(g);
            lemma_groups_text_is_graphic(g.take(start));
            lemma_groups_text_is_graphic(g.skip(start + len));
        },
    }
}

impl IpAddr {
    /// Read an address of either family from text.
    pub fn parse(s: &str) -> (r: Option<IpAddr>)
        ensures
            r == ip_value(s@),
    {
        match Ipv4Addr::parse(s) {
            Some(v4) => Some(IpAddr::V4(v4)),
            None => match Ipv6Addr::parse(s) {
                Some(v6) => Some(IpAddr::V6(v6)),
                None => None,
            },
        }
    }

    /// The address as text.
    pub fn to_string(&self) -> (r: String)
        ensures
            r@ == ip_text(*self),
    {
        match self {
            IpAddr::V4(v4) => v4.to_string(),
            IpAddr::V6(v6) => v6.to_string(),
        }
    }
}

} // verus!
