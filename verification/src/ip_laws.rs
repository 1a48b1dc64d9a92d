//! What holds of every IP address: its text reads back as the address, whichever
//! family it is of.

use vstd::prelude::*;

use crate::bytes::{find_in, lemma_find_in, lemma_find_in_is, occurs_at};
use crate::ip::{
    address_groups, double_colon, group_value, groups_number, groups_text, hex_number, hex_text,
    hex_value, in_net4, in_net6, ip_text, ip_value, ipv4_text, ipv4_value, ipv6_groups, ipv6_text,
    ipv6_value, longest_run, octet_value, part_groups, plain_groups, zero_groups, zero_run, IpAddr,
    Ipv4Addr, Ipv6Addr,
};
use crate::text::{
    decimal, digit, find, hex_char, joined, lemma_decimal, lemma_find, lemma_find_is,
    lemma_find_none, lemma_splits, splits,
};

verus! {

// ---------------------------------------------------------------------------
// Laws
// ---------------------------------------------------------------------------

/// The text of an address reads back as that address.
pub proof fn law_ip_text_reads_back(ip: IpAddr)
    ensures
        ip_value(ip_text(ip)) == Some(ip),
{
    match ip {
        IpAddr::V4(v4) => {
            lemma_ipv4_reads_back(v4.bits);
        },
        IpAddr::V6(v6) => {
            lemma_ipv6_is_no_ipv4(v6.bits);
            lemma_ipv6_reads_back(v6.bits);
        },
    }
}

/// Two addresses with one text are one address.
pub proof fn law_ip_text_names_one_address(a: IpAddr, b: IpAddr)
    requires
        ip_text(a) == ip_text(b),
    ensures
        a == b,
{
    law_ip_text_reads_back(a);
    law_ip_text_reads_back(b);
}

/// A network holds its own address; with an empty prefix it holds every address, and
/// with a full one no other.
pub proof fn law_network_bounds(net4: Ipv4Addr, ip4: Ipv4Addr, net6: Ipv6Addr, ip6: Ipv6Addr)
    ensures
        forall|prefix: u8| prefix <= 32 ==> #[trigger] in_net4(net4, prefix, net4),
        forall|prefix: u8| prefix <= 128 ==> #[trigger] in_net6(net6, prefix, net6),
        in_net4(net4, 0, ip4),
        in_net6(net6, 0, ip6),
        in_net4(net4, 32, ip4) <==> net4 == ip4,
        in_net6(net6, 128, ip6) <==> net6 == ip6,
{
    let a = net4.bits;
    let b = ip4.bits;
    assert(a >> 0u32 == a && b >> 0u32 == b) by (bit_vector);
    let c = net6.bits;
    let d = ip6.bits;
    assert(c >> 0u32 == c && d >> 0u32 == d) by (bit_vector);
}

// ---------------------------------------------------------------------------
// Pieces
// ---------------------------------------------------------------------------

/// Whether a character stands nowhere in a text.
spec fn free_of(s: Seq<char>, c: char) -> bool {
    forall|i: int| 0 <= i < s.len() ==> s[i] != c
}

proof fn lemma_splits_none(s: Seq<char>, c: char)
    requires
        free_of(s, c),
    ensures
        splits(s, c) == seq![s],
{
    lemma_find_none(s, c);
}

/// What stands after a last separator is the last piece.
proof fn lemma_splits_last(a: Seq<char>, b: Seq<char>, c: char)
    requires
        free_of(b, c),
    ensures
        splits(a + seq![c] + b, c) == splits(a, c).push(b),
    decreases a.len(),
{
    let s = a + seq![c] + b;
    lemma_find(a, c);
    match find(a, c) {
        Some(i) => {
            let rest = a.skip(i + 1);
            assert forall|j: int| 0 <= j < i implies s[j] != c by {
                assert(s[j] == a[j]);
            }
            lemma_find_is(s, c, i);
            assert(s.take(i) =~= a.take(i));
            assert(s.skip(i + 1) =~= rest + seq![c] + b);
            lemma_splits_last(rest, b, c);
            assert(seq![a.take(i)] + splits(rest, c).push(b) =~= (seq![a.take(i)] + splits(
                rest,
                c,
            )).push(b));
        },
        None => {
            let i = a.len() as int;
            assert forall|j: int| 0 <= j < i implies s[j] != c by {
                assert(s[j] == a[j]);
            }
            lemma_find_is(s, c, i);
            assert(s.take(i) =~= a);
            assert(s.skip(i + 1) =~= b);
            lemma_splits_none(b, c);
            assert(seq![a] + seq![b] =~= seq![a].push(b));
        },
    }
}

proof fn lemma_splits_joined(parts: Seq<Seq<char>>, c: char)
    requires
        parts.len() > 0,
        forall|k: int| 0 <= k < parts.len() ==> free_of(#[trigger] parts[k], c),
    ensures
        splits(joined(parts, seq![c]), c) == parts,
    decreases parts.len(),
{
    if parts.len() == 1 {
        lemma_splits_none(parts[0], c);
        assert(seq![parts[0]] =~= parts);
    } else {
        lemma_splits_joined(parts.drop_last(), c);
        lemma_splits_last(joined(parts.drop_last(), seq![c]), parts.last(), c);
        assert(parts.drop_last().push(parts.last()) =~= parts);
    }
}

// ---------------------------------------------------------------------------
// IPv4
// ---------------------------------------------------------------------------

proof fn lemma_octet_reads_back(n: nat)
    requires
        n <= 255,
    ensures
        octet_value(decimal(n)) == Some(n),
        free_of(decimal(n), '.'),
        free_of(decimal(n), ':'),
{
    lemma_decimal(n);
    reveal_with_fuel(decimal, 4);
    let s = decimal(n);
    assert forall|i: int| 0 <= i < s.len() implies s[i] != '.' && s[i] != ':' by {
        assert(digit(s[i]));
    }
}

proof fn lemma_ipv4_reads_back(bits: u32)
    ensures
        ipv4_value(ipv4_text(bits)) == Some(bits as nat),
        free_of(ipv4_text(bits), ':'),
{
    let a = (bits / 0x100_0000) as nat;
    let b = (bits / 0x1_0000 % 0x100) as nat;
    let c = (bits / 0x100 % 0x100) as nat;
    let d = (bits % 0x100) as nat;
    lemma_octet_reads_back(a);
    lemma_octet_reads_back(b);
    lemma_octet_reads_back(c);
    lemma_octet_reads_back(d);
    let ab = decimal(a) + seq!['.'] + decimal(b);
    let abc = ab + seq!['.'] + decimal(c);
    lemma_splits_none(decimal(a), '.');
    lemma_splits_last(decimal(a), decimal(b), '.');
    lemma_splits_last(ab, decimal(c), '.');
    lemma_splits_last(abc, decimal(d), '.');
    assert(splits(ipv4_text(bits), '.') =~= seq![decimal(a), decimal(b), decimal(c), decimal(d)]);
}

// ---------------------------------------------------------------------------
// IPv6 groups
// ---------------------------------------------------------------------------

proof fn lemma_hex_text(n: nat)
    ensures
        hex_number(hex_text(n)) == Some(n),
        hex_text(n).len() > 0,
        free_of(hex_text(n), '.'),
        free_of(hex_text(n), ':'),
    decreases n,
{
    if n < 16 {
        let s = seq![hex_char(n)];
        assert(s.drop_last() =~= Seq::empty());
        assert(hex_number(s.drop_last()) == Some(0nat));
        assert(hex_value(hex_char(n)) == Some(n));
    } else {
        lemma_hex_text(n / 16);
        assert(hex_text(n).drop_last() =~= hex_text(n / 16));
        assert(hex_value(hex_char(n % 16)) == Some(n % 16));
    }
}

proof fn lemma_group_reads_back(n: nat)
    requires
        n < 0x1_0000,
    ensures
        group_value(hex_text(n)) == Some(n),
        hex_text(n).len() > 0,
        free_of(hex_text(n), '.'),
        free_of(hex_text(n), ':'),
{
    lemma_hex_text(n);
    reveal_with_fuel(hex_text, 5);
}

/// Whether every number fits in a group.
spec fn are_groups(g: Seq<nat>) -> bool {
    forall|i: int| 0 <= i < g.len() ==> #[trigger] g[i] < 0x1_0000
}

/// The texts of groups.
spec fn group_texts(g: Seq<nat>) -> Seq<Seq<char>> {
    g.map_values(|x: nat| hex_text(x))
}

proof fn lemma_plain_groups(g: Seq<nat>, n: int)
    requires
        are_groups(g),
        0 <= n <= g.len(),
    ensures
        plain_groups(group_texts(g), n) == Some(g.take(n)),
    decreases n,
{
    if n > 0 {
        lemma_plain_groups(g, n - 1);
        lemma_group_reads_back(g[n - 1]);
        assert(group_texts(g)[n - 1] == hex_text(g[n - 1]));
        assert(g.take(n - 1).push(g[n - 1]) =~= g.take(n));
    } else {
        assert(g.take(0) =~= Seq::empty());
    }
}

proof fn lemma_groups_read_back(g: Seq<nat>, v4: bool)
    requires
        are_groups(g),
    ensures
        part_groups(groups_text(g), v4) == Some(g),
{
    let texts = group_texts(g);
    assert(texts == g.map_values(|x: nat| hex_text(x)));
    if g.len() == 0 {
        assert(groups_text(g) =~= Seq::empty());
        assert(g =~= Seq::empty());
    } else {
        assert forall|k: int| 0 <= k < texts.len() implies free_of(#[trigger] texts[k], ':') by {
            lemma_group_reads_back(g[k]);
        }
        lemma_splits_joined(texts, ':');
        lemma_text_has_no_double_colon(g);
        let last = g.len() - 1;
        lemma_plain_groups(g, last);
        lemma_group_reads_back(g[last]);
        lemma_splits_none(texts[last], '.');
        assert(g.take(last).push(g[last]) =~= g);
    }
}

/// Groups in text neither begin nor end in a colon, and no two colons are neighbours.
proof fn lemma_text_has_no_double_colon(g: Seq<nat>)
    requires
        are_groups(g),
    ensures
        ({
            let t = groups_text(g);
            &&& g.len() > 0 ==> t.len() > 0
            &&& t.len() > 0 ==> t[t.len() - 1] != ':'
            &&& forall|j: int| 0 <= j < t.len() - 1 ==> #[trigger] t[j] != ':' || t[j + 1] != ':'
            &&& free_of(t, '.')
        }),
    decreases g.len(),
{
    let texts = group_texts(g);
    assert(texts == g.map_values(|x: nat| hex_text(x)));
    if g.len() == 0 {
        assert(groups_text(g) =~= Seq::empty());
    } else {
        let last = hex_text(g.last());
        lemma_group_reads_back(g[g.len() - 1]);
        assert(texts.last() == last);
        if g.len() > 1 {
            let before = groups_text(g.drop_last());
            lemma_text_has_no_double_colon(g.drop_last());
            assert(texts.drop_last() =~= g.drop_last().map_values(|x: nat| hex_text(x)));
            let t = groups_text(g);
            let n = before.len() as int;
            assert(t == before + seq![':'] + last);
            assert forall|j: int| 0 <= j < t.len() - 1 implies #[trigger] t[j] != ':' || t[j + 1]
                != ':' by {
                if j < n - 1 {
                    assert(t[j] == before[j] && t[j + 1] == before[j + 1]);
                } else if j == n - 1 {
                    assert(t[j] == before[j]);
                } else {
                    assert(t[j + 1] == last[j - n]);
                }
            }
            assert(t[t.len() - 1] == last[last.len() - 1]);
        }
    }
}

// ---------------------------------------------------------------------------
// IPv6
// ---------------------------------------------------------------------------

/// The number of values that so many groups can take.
spec fn group_values(n: nat) -> nat
    decreases n,
{
    if n == 0 {
        1
    } else {
        group_values((n - 1) as nat) * 0x1_0000
    }
}

proof fn lemma_address_groups(bits: u128, n: nat)
    requires
        bits < group_values(n),
    ensures
        address_groups(bits, n).len() == n,
        are_groups(address_groups(bits, n)),
        groups_number(address_groups(bits, n)) == bits,
    decreases n,
{
    if n > 0 {
        lemma_address_groups(bits / 0x1_0000, (n - 1) as nat);
        let g = address_groups(bits, n);
        assert(g.drop_last() =~= address_groups(bits / 0x1_0000, (n - 1) as nat));
        assert forall|i: int| 0 <= i < g.len() implies #[trigger] g[i] < 0x1_0000 by {
            if i < n - 1 {
                assert(g[i] == g.drop_last()[i]);
            }
        }
    }
}

proof fn lemma_zero_run(g: Seq<nat>)
    ensures
        zero_run(g) <= g.len(),
        forall|i: int| 0 <= i < zero_run(g) ==> #[trigger] g[i] == 0,
    decreases g.len(),
{
    if g.len() > 0 && g[0] == 0 {
        lemma_zero_run(g.drop_first());
        assert forall|i: int| 0 <= i < zero_run(g) implies #[trigger] g[i] == 0 by {
            if i > 0 {
                assert(g[i] == g.drop_first()[i - 1]);
            }
        }
    }
}

proof fn lemma_longest_run(g: Seq<nat>, n: nat)
    requires
        n > 0,
    ensures
        0 <= longest_run(g, n) < n,
    decreases n,
{
    if n > 1 {
        lemma_longest_run(g, (n - 1) as nat);
    }
}

/// The first two neighbouring colons of a text that holds a `::` after groups.
proof fn lemma_double_colon_found(head: Seq<nat>, tail: Seq<char>)
    requires
        are_groups(head),
    ensures
        find_in(groups_text(head) + double_colon() + tail, double_colon()) == Some(
            groups_text(head).len() as int,
        ),
{
    let a = groups_text(head);
    let n = a.len() as int;
    let s = a + double_colon() + tail;
    lemma_text_has_no_double_colon(head);
    assert(s.subrange(n, n + 2) =~= double_colon());
    assert forall|j: int| 0 <= j < n implies !occurs_at(s, double_colon(), j) by {
        if occurs_at(s, double_colon(), j) {
            assert(s.subrange(j, j + 2)[0] == s[j]);
            assert(s.subrange(j, j + 2)[1] == s[j + 1]);
            assert(s[j] == a[j]);
            if j + 1 < n {
                assert(s[j + 1] == a[j + 1]);
            }
        }
    }
    lemma_find_in_is(s, double_colon(), n);
}

/// Eight groups, a run of zero ones among them written as `::`, read back.
proof fn lemma_compressed_reads_back(g: Seq<nat>, start: int, len: int)
    requires
        are_groups(g),
        g.len() == 8,
        0 <= start,
        len > 0,
        start + len <= 8,
        forall|i: int| start <= i < start + len ==> #[trigger] g[i] == 0,
    ensures
        ({
            let text = groups_text(g.take(start)) + double_colon() + groups_text(
                g.skip(start + len),
            );
            ipv6_groups(text) == Some(g) && free_of(text, '.')
        }),
{
    let head = g.take(start);
    let tail = g.skip(start + len);
    let a = groups_text(head);
    let b = groups_text(tail);
    let text = a + double_colon() + b;
    let n = a.len() as int;
    lemma_text_has_no_double_colon(head);
    lemma_text_has_no_double_colon(tail);
    lemma_double_colon_found(head, b);
    lemma_groups_read_back(head, false);
    lemma_groups_read_back(tail, true);
    assert(text.take(n) =~= a);
    assert(text.skip(n + 2) =~= b);
    assert(head + zero_groups(8 - head.len() - tail.len()) + tail =~= g);
}

/// Eight groups written out read back.
proof fn lemma_full_reads_back(g: Seq<nat>)
    requires
        are_groups(g),
        g.len() == 8,
    ensures
        ipv6_groups(groups_text(g)) == Some(g),
        free_of(groups_text(g), '.'),
{
    let text = groups_text(g);
    lemma_text_has_no_double_colon(g);
    lemma_groups_read_back(g, true);
    lemma_find_in(text, double_colon());
    if let Some(j) = find_in(text, double_colon()) {
        assert(occurs_at(text, double_colon(), j));
        assert(text.subrange(j, j + 2)[0] == text[j]);
        assert(text.subrange(j, j + 2)[1] == text[j + 1]);
    }
}

proof fn lemma_plain_ipv6_reads_back(bits: u128)
    requires
        bits / 0x1_0000_0000 != 0xffff,
    ensures
        ipv6_groups(ipv6_text(bits)) == Some(address_groups(bits, 8)),
        free_of(ipv6_text(bits), '.'),
{
    let g = address_groups(bits, 8);
    let start = longest_run(g, 8);
    let rest = g.skip(start);
    let len = zero_run(rest) as int;
    lemma_full_address_groups(bits);
    lemma_longest_run(g, 8);
    lemma_zero_run(rest);
    if len > 1 {
        assert forall|i: int| start <= i < start + len implies #[trigger] g[i] == 0 by {
            assert(rest[i - start] == g[i]);
        }
        lemma_compressed_reads_back(g, start, len);
    } else {
        lemma_full_reads_back(g);
    }
}

proof fn lemma_full_address_groups(bits: u128)
    ensures
        address_groups(bits, 8).len() == 8,
        are_groups(address_groups(bits, 8)),
        groups_number(address_groups(bits, 8)) == bits,
{
    assert(bits < group_values(8)) by {
        reveal_with_fuel(group_values, 9);
    }
    lemma_address_groups(bits, 8);
}

/// An IPv4-mapped address in text: two colons, `ffff`, and the IPv4 address.
proof fn lemma_mapped_text(bits: u128)
    requires
        bits / 0x1_0000_0000 == 0xffff,
    ensures
        ipv6_text(bits) == double_colon() + (seq!['f', 'f', 'f', 'f'] + seq![':'] + ipv4_text(
            (bits % 0x1_0000_0000) as u32,
        )),
{
    reveal_strlit("::ffff:");
    assert(ipv6_text(bits) =~= double_colon() + (seq!['f', 'f', 'f', 'f'] + seq![':'] + ipv4_text(
        (bits % 0x1_0000_0000) as u32,
    )));
}

proof fn lemma_mapped_tail(v4: u32)
    ensures
        part_groups(seq!['f', 'f', 'f', 'f'] + seq![':'] + ipv4_text(v4), true) == Some(
            seq![0xffffnat, (v4 / 0x1_0000) as nat, (v4 % 0x1_0000) as nat],
        ),
{
    let ffff = seq!['f', 'f', 'f', 'f'];
    let tail = ffff + seq![':'] + ipv4_text(v4);
    let p = splits(tail, ':');
    lemma_ipv4_reads_back(v4);
    assert(hex_text(0xffff) =~= ffff) by {
        reveal_with_fuel(hex_text, 5);
    }
    lemma_group_reads_back(0xffff);
    lemma_splits_none(ffff, ':');
    lemma_splits_last(ffff, ipv4_text(v4), ':');
    assert(p =~= seq![ffff, ipv4_text(v4)]);
    let one = Seq::<nat>::empty().push(0xffff);
    assert(plain_groups(p, 0) == Some(Seq::<nat>::empty()));
    assert(plain_groups(p, 1) == Some(one));
    assert(one.push((v4 / 0x1_0000) as nat).push((v4 % 0x1_0000) as nat) =~= seq![
        0xffffnat,
        (v4 / 0x1_0000) as nat,
        (v4 % 0x1_0000) as nat,
    ]);
}

proof fn lemma_mapped_number(hi: nat, lo: nat)
    ensures
        groups_number(zero_groups(5) + seq![0xffffnat, hi, lo]) == 0xffff * 0x1_0000_0000 + hi
            * 0x1_0000 + lo,
{
    let w8 = zero_groups(5) + seq![0xffffnat, hi, lo];
    let w7 = w8.drop_last();
    let w6 = w7.drop_last();
    let w5 = w6.drop_last();
    assert(w7.last() == hi && w6.last() == 0xffff);
    assert(w5 =~= zero_groups(5));
    lemma_zero_groups(5);
    assert(groups_number(w6) == groups_number(w5) * 0x1_0000 + 0xffff);
    assert(groups_number(w7) == groups_number(w6) * 0x1_0000 + hi);
    assert(groups_number(w8) == groups_number(w7) * 0x1_0000 + lo);
}

proof fn lemma_zero_groups(n: int)
    requires
        n >= 0,
    ensures
        groups_number(zero_groups(n)) == 0,
    decreases n,
{
    if n > 0 {
        assert(zero_groups(n).drop_last() =~= zero_groups(n - 1));
        lemma_zero_groups(n - 1);
    }
}

proof fn lemma_mapped_reads_back(bits: u128)
    requires
        bits / 0x1_0000_0000 == 0xffff,
    ensures
        ipv6_value(ipv6_text(bits)) == Some(bits as nat),
{
    let v4 = (bits % 0x1_0000_0000) as u32;
    let hi = (v4 / 0x1_0000) as nat;
    let lo = (v4 % 0x1_0000) as nat;
    let tail = seq!['f', 'f', 'f', 'f'] + seq![':'] + ipv4_text(v4);
    let text = ipv6_text(bits);
    lemma_mapped_text(bits);
    assert(text.subrange(0, 2) =~= double_colon());
    lemma_find_in_is(text, double_colon(), 0);
    assert(text.take(0) =~= Seq::empty());
    assert(text.skip(2) =~= tail);
    lemma_mapped_tail(v4);
    lemma_mapped_number(hi, lo);
    assert(Seq::<nat>::empty() + zero_groups(5) =~= zero_groups(5));
}

proof fn lemma_ipv6_reads_back(bits: u128)
    ensures
        ipv6_value(ipv6_text(bits)) == Some(bits as nat),
{
    if bits / 0x1_0000_0000 == 0xffff {
        lemma_mapped_reads_back(bits);
    } else {
        lemma_plain_ipv6_reads_back(bits);
        lemma_full_address_groups(bits);
    }
}

proof fn lemma_ipv6_is_no_ipv4(bits: u128)
    ensures
        ipv4_value(ipv6_text(bits)) is None,
{
    let text = ipv6_text(bits);
    if bits / 0x1_0000_0000 == 0xffff {
        lemma_mapped_text(bits);
        lemma_find(text, '.');
        lemma_splits(text, '.');
        let first = splits(text, '.')[0];
        assert(text[0] == ':');
        assert(first.len() > 0 && first[0] == ':');
        assert(!digit(first[0]));
    } else {
        lemma_plain_ipv6_reads_back(bits);
        lemma_splits_none(text, '.');
    }
}

/// Eight groups of hexadecimal digits with colons between them are the address that has
/// them as its sixteen-bit parts, the first one the highest, and two colons stand for the
/// zero groups that are missing.
pub proof fn law_groups_are_an_address(g: Seq<nat>, start: int, len: int)
    requires
        g.len() == 8,
        forall|i: int| 0 <= i < 8 ==> #[trigger] g[i] < 0x1_0000,
        0 <= start,
        0 < len,
        start + len <= 8,
    ensures
        ipv6_value(groups_text(g)) == Some(
            ((((((((g[0] * 0x1_0000 + g[1]) * 0x1_0000 + g[2]) * 0x1_0000 + g[3]) * 0x1_0000 + g[4])
                * 0x1_0000 + g[5]) * 0x1_0000 + g[6]) * 0x1_0000 + g[7])) as nat,
        ),
        (forall|i: int| start <= i < start + len ==> #[trigger] g[i] == 0) ==> ipv6_value(
            groups_text(g.take(start)) + seq![':', ':'] + groups_text(g.skip(start + len)),
        ) == ipv6_value(groups_text(g)),
{
    lemma_full_reads_back(g);
    lemma_horner(g);
    if forall|i: int| start <= i < start + len ==> #[trigger] g[i] == 0 {
        lemma_compressed_reads_back(g, start, len);
    }
}

proof fn lemma_horner(g: Seq<nat>)
    requires
        g.len() == 8,
    ensures
        groups_number(g) == ((((((((g[0] * 0x1_0000 + g[1]) * 0x1_0000 + g[2]) * 0x1_0000 + g[3])
            * 0x1_0000 + g[4]) * 0x1_0000 + g[5]) * 0x1_0000 + g[6]) * 0x1_0000 + g[7])) as nat,
{
    let g7 = g.drop_last();
    let g6 = g7.drop_last();
    let g5 = g6.drop_last();
    let g4 = g5.drop_last();
    let g3 = g4.drop_last();
    let g2 = g3.drop_last();
    let g1 = g2.drop_last();
    assert(g1.drop_last().len() == 0);
    assert(groups_number(g1.drop_last()) == 0);
    assert(groups_number(g1) == g[0]);
    assert(groups_number(g2) == g[0] * 0x1_0000 + g[1]);
    assert(groups_number(g3) == groups_number(g2) * 0x1_0000 + g[2]);
    assert(groups_number(g4) == groups_number(g3) * 0x1_0000 + g[3]);
    assert(groups_number(g5) == groups_number(g4) * 0x1_0000 + g[4]);
    assert(groups_number(g6) == groups_number(g5) * 0x1_0000 + g[5]);
    assert(groups_number(g7) == groups_number(g6) * 0x1_0000 + g[6]);
    assert(groups_number(g) == groups_number(g7) * 0x1_0000 + g[7]);
}

/// A group is written in small hexadecimal digits, the highest first and no zero before them.
pub proof fn law_group_text_is_its_digits(n: nat)
    ensures
        n < 16 ==> hex_text(n) == seq![hex_char(n)],
        n >= 16 ==> hex_text(n) == hex_text(n / 16).push(hex_char(n % 16)),
        hex_number(hex_text(n)) == Some(n),
{
    lemma_hex_text(n);
}

} // verus!
