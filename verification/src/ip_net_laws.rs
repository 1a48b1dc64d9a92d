//! What networks hold and what dotted text stands for.

use vstd::arithmetic::power2::pow2;
use vstd::bits::{lemma_u128_shr_is_div, lemma_u32_shr_is_div};
use vstd::prelude::*;

use crate::ip::{in_net4, in_net6, ip_text, ip_value, ipv4_text, IpAddr, Ipv4Addr, Ipv6Addr};
use crate::ip_laws::law_ip_text_reads_back;
use crate::text::decimal;

verus! {

/// An address is in a network exactly where the two agree in the bits of the prefix: their
/// numbers are the same without the bits that the prefix leaves out.
pub proof fn law_network_is_a_common_prefix(
    net4: Ipv4Addr,
    ip4: Ipv4Addr,
    net6: Ipv6Addr,
    ip6: Ipv6Addr,
    prefix: u8,
)
    ensures
        1 <= prefix <= 32 ==> (in_net4(net4, prefix, ip4) <==> net4.bits as nat / pow2(
            (32 - prefix) as nat,
        ) == ip4.bits as nat / pow2((32 - prefix) as nat)),
        1 <= prefix <= 128 ==> (in_net6(net6, prefix, ip6) <==> net6.bits as nat / pow2(
            (128 - prefix) as nat,
        ) == ip6.bits as nat / pow2((128 - prefix) as nat)),
        prefix == 0 ==> in_net4(net4, prefix, ip4) && in_net6(net6, prefix, ip6),
        prefix > 32 ==> !in_net4(net4, prefix, ip4),
        prefix > 128 ==> !in_net6(net6, prefix, ip6),
{
    if 1 <= prefix <= 32 {
        let shift = (32 - prefix) as u32;
        lemma_u32_shr_is_div(net4.bits, shift);
        lemma_u32_shr_is_div(ip4.bits, shift);
    }
    if 1 <= prefix <= 128 {
        let shift = (128 - prefix) as u128;
        lemma_u128_shr_is_div(net6.bits, shift);
        lemma_u128_shr_is_div(ip6.bits, shift);
    }
}

/// Four numbers of at most 255 with dots between them are the address of those octets, the
/// first one the highest.
pub proof fn law_dotted_octets_are_an_address(a: u8, b: u8, c: u8, d: u8)
    ensures
        ip_value(
            decimal(a as nat) + seq!['.'] + decimal(b as nat) + seq!['.'] + decimal(c as nat)
                + seq!['.'] + decimal(d as nat),
        ) == Some(
            IpAddr::V4(
                Ipv4Addr { bits: (a * 0x100_0000 + b * 0x1_0000 + c * 0x100 + d) as u32 },
            ),
        ),
{
    let bits = (a * 0x100_0000 + b * 0x1_0000 + c * 0x100 + d) as u32;
    lemma_octets(a, b, c, d, bits);
    let ip = IpAddr::V4(Ipv4Addr { bits });
    law_ip_text_reads_back(ip);
    assert(ip_text(ip) == ipv4_text(bits));
}

proof fn lemma_octets(a: u8, b: u8, c: u8, d: u8, bits: u32)
    requires
        bits == a * 0x100_0000 + b * 0x1_0000 + c * 0x100 + d,
    ensures
        bits / 0x100_0000 == a,
        bits / 0x1_0000 % 0x100 == b,
        bits / 0x100 % 0x100 == c,
        bits % 0x100 == d,
{
    assert(bits / 0x1_0000 == a * 0x100 + b);
    assert(bits / 0x100 == a * 0x1_0000 + b * 0x100 + c);
}

} // verus!
