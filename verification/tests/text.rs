//! Text, bytes and addresses.

use snail::assoc::Assoc;
use snail::ip::{IpAddr, Ipv4Addr, Ipv6Addr};
use snail::network::dkim::DkimSignature;
use snail::ring::Ring;
use snail::text::{
    chars_of, is_whitespace, lines, parse_number, split_words, string_of, to_decimal, to_hex, trim,
};

#[test]
fn white_space_is_that_of_the_standard_library() {
    for code in 0..=0x10ffffu32 {
        if let Some(c) = char::from_u32(code) {
            assert_eq!(is_whitespace(c), c.is_whitespace(), "U+{code:04X}");
        }
    }
}

#[test]
fn text_is_cut_like_the_standard_library_cuts_it() {
    for s in ["", " a b ", "\u{a0}x\r\ny\n", "a\r\n\r\nb\r", "\n", "no end", "\t\u{2003}q\u{2003}"] {
        let chars = chars_of(s);
        assert_eq!(string_of(trim(&chars)), s.trim());
        let cut: Vec<String> = lines(&chars).iter().map(|l| string_of(l)).collect();
        assert_eq!(cut, s.lines().collect::<Vec<_>>());
        let words: Vec<String> = split_words(&chars).iter().map(|w| string_of(w)).collect();
        assert_eq!(words, s.split_whitespace().collect::<Vec<_>>());
    }
}

#[test]
fn numbers_read_and_write() {
    let read = |s: &str, max: u64| parse_number(&chars_of(s), max);
    assert_eq!(read("18446744073709551615", u64::MAX), Some(u64::MAX));
    assert_eq!(read("18446744073709551616", u64::MAX), None);
    assert_eq!(read("+7", 255), Some(7));
    assert_eq!(read("256", 255), None);
    assert_eq!(read("", 255), None);
    assert_eq!(read("-1", 255), None);
    assert_eq!(read("1 ", 255), None);
    for n in [0, 7, 10, 999, u64::MAX] {
        assert_eq!(string_of(&to_decimal(n)), n.to_string());
    }
    assert_eq!(string_of(&to_hex(&[0x00, 0xab, 0x5f])), "00ab5f");
}

#[test]
fn ipv4_addresses_read_and_write() {
    for s in ["0.0.0.0", "192.0.2.1", "255.255.255.255"] {
        assert_eq!(Ipv4Addr::parse(s).unwrap().to_string(), s);
    }
    for s in ["", "1.2.3", "1.2.3.4.5", "256.0.0.1", "01.2.3.4", "1..2.3", " 1.2.3.4", "1.2.3.4 "] {
        assert_eq!(Ipv4Addr::parse(s), None, "{s:?}");
    }
}

#[test]
fn ipv6_addresses_read_and_write() {
    for s in [
        "::",
        "::1",
        "2001:db8::1",
        "2001:db8:0:1:1:1:1:1",
        "1:0:0:2::3",
        "fe80::",
        "::ffff:192.0.2.1",
    ] {
        assert_eq!(Ipv6Addr::parse(s).unwrap().to_string(), s);
    }
    assert_eq!(
        Ipv6Addr::parse("2001:DB8:0:0:0:0:0:1").unwrap().to_string(),
        "2001:db8::1"
    );
    for s in ["", ":", ":::", "1:2:3", "1::2::3", "12345::", "g::", "1:2:3:4:5:6:7:8:9"] {
        assert_eq!(Ipv6Addr::parse(s), None, "{s:?}");
    }
    assert_eq!(
        IpAddr::parse("1.2.3.4"),
        Some(IpAddr::V4(Ipv4Addr::new(1, 2, 3, 4)))
    );
    assert!(matches!(IpAddr::parse("::1"), Some(IpAddr::V6(_))));
    assert_eq!(IpAddr::parse("localhost"), None);
}

#[test]
fn address_text_reads_back_as_the_address() {
    for bits in [0u32, 1, 0x0a00_0001, 0xc000_0201, 0xffff_ffff] {
        let ip = IpAddr::V4(Ipv4Addr { bits });
        assert_eq!(IpAddr::parse(&ip.to_string()), Some(ip));
    }
    for bits in [
        0u128,
        1,
        0xffff_c000_0201,
        0xfffe_c000_0201,
        0x2001_0db8_0000_0001_0000_0000_0000_0001,
        0x0001_0000_0000_0001_0000_0000_0000_0000,
        u128::MAX,
    ] {
        let ip = IpAddr::V6(Ipv6Addr { bits });
        assert_eq!(IpAddr::parse(&ip.to_string()), Some(ip));
    }
}

#[test]
fn base64_is_the_standard_alphabet_with_padding() {
    let signed = |b: &str| {
        let raw = format!("v=1; a=rsa-sha256; d=x; s=y; h=from; bh=AA==; b={b}");
        DkimSignature::parse(raw.as_bytes()).map(|s| s.signature)
    };
    assert_eq!(signed("dGVzdA==").unwrap(), b"test");
    assert_eq!(signed("dGV\r\n zdA==").unwrap(), b"test");
    assert!(signed("dGVzdA").is_err());
    assert!(signed("*").is_err());
}

#[test]
fn associations_hold_one_value_per_key() {
    let mut m: Assoc<String, u8> = Assoc::new();
    m.insert("a".to_string(), 1);
    m.insert("b".to_string(), 2);
    m.insert("a".to_string(), 3);
    assert_eq!(m.len(), 2);
    assert_eq!(m.get(&"a".to_string()), Some(&3));
    assert!(m.remove(&"a".to_string()));
    assert!(!m.remove(&"a".to_string()));
    assert!(!m.contains(&"a".to_string()));
}

#[test]
fn rings_keep_the_latest() {
    let mut r: Ring<u8> = Ring::new(2);
    for n in 1..=3 {
        r.push(n);
    }
    assert_eq!(r.len(), 2);
    assert_eq!((*r.get(0), *r.get(1)), (2, 3));
}
