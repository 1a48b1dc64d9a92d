//! SPF: records, macros, evaluation.

use std::collections::BTreeMap;

use snail::ip::{cidr4, cidr6, IpAddr, Ipv4Addr, Ipv6Addr};
use snail::network::dns::lookup::{DnsAnswer, DnsQuery};
use snail::network::dns::{AddressRecord, MxRecord, PtrRecord, TxtRecord};
use snail::network::spf::eval::{evaluate, ip_in_net, SpfResult, SpfStep};
use snail::network::spf::macro_expand::{expand, MacroContext};
use snail::network::spf::record::{Mechanism, Qualifier, SpfRecord};

// ---------------------------------------------------------------------------
// Evaluation
// ---------------------------------------------------------------------------

/// Canned DNS.
#[derive(Default)]
struct Mock {
    txt: BTreeMap<String, Vec<String>>,
    ip: BTreeMap<String, Vec<IpAddr>>,
    mx: BTreeMap<String, Vec<String>>,
    ptr: Vec<(IpAddr, Vec<String>)>,
    fail_txt: bool,
}

impl Mock {
    fn txt(mut self, name: &str, value: &str) -> Self {
        self.txt.insert(name.into(), vec![value.into()]);
        self
    }

    fn txt_multi(mut self, name: &str, values: &[&str]) -> Self {
        self.txt
            .insert(name.into(), values.iter().map(|s| (*s).into()).collect());
        self
    }

    fn ip(mut self, host: &str, addrs: &[&str]) -> Self {
        self.ip.insert(
            host.into(),
            addrs.iter().map(|a| IpAddr::parse(a).unwrap()).collect(),
        );
        self
    }

    fn mx(mut self, domain: &str, hosts: &[&str]) -> Self {
        self.mx
            .insert(domain.into(), hosts.iter().map(|h| (*h).into()).collect());
        self
    }

    fn ptr(mut self, ip: IpAddr, names: &[&str]) -> Self {
        self.ptr
            .push((ip, names.iter().map(|n| (*n).into()).collect()));
        self
    }

    fn answer(&self, query: &DnsQuery) -> DnsAnswer {
        match query {
            DnsQuery::Txt(name) => DnsAnswer::Txt(if self.fail_txt {
                vec![]
            } else {
                self.txt
                    .get(name)
                    .map(|v| v.iter().cloned().map(TxtRecord).collect())
                    .unwrap_or_default()
            }),
            DnsQuery::Addresses(host) => DnsAnswer::Addresses(
                self.ip
                    .get(host)
                    .map(|v| v.iter().copied().map(AddressRecord).collect())
                    .unwrap_or_default(),
            ),
            DnsQuery::Exchanges(domain) => DnsAnswer::Exchanges(
                self.mx
                    .get(domain)
                    .map(|v| {
                        v.iter()
                            .map(|e| MxRecord {
                                preference: 10,
                                exchange: e.clone(),
                            })
                            .collect()
                    })
                    .unwrap_or_default(),
            ),
            DnsQuery::Pointers(ip) => DnsAnswer::Pointers(
                self.ptr
                    .iter()
                    .find(|(i, _)| i == ip)
                    .map(|(_, v)| v.iter().cloned().map(PtrRecord).collect())
                    .unwrap_or_default(),
            ),
        }
    }
}

fn v4(s: &str) -> IpAddr {
    IpAddr::V4(Ipv4Addr::parse(s).unwrap())
}

fn addr4(s: &str) -> Ipv4Addr {
    Ipv4Addr::parse(s).unwrap()
}

fn addr6(s: &str) -> Ipv6Addr {
    Ipv6Addr::parse(s).unwrap()
}

/// Evaluate, answering each question as it is asked; also how many there were.
fn run(mock: &Mock, ip: IpAddr, helo: &str, from: &str) -> (SpfResult, usize) {
    let mut answers: Vec<DnsAnswer> = Vec::new();
    loop {
        match evaluate(ip, helo, from, &answers) {
            SpfStep::Done(result) => return (result, answers.len()),
            SpfStep::Ask(query) => answers.push(mock.answer(&query)),
        }
    }
}

fn check(mock: &Mock, ip: IpAddr, from: &str) -> SpfResult {
    run(mock, ip, "mail.sender.example", from).0
}

#[test]
fn cidr_matching_edge_cases() {
    // /0 matches everything; /32 is exact; off-by-one bit fails.
    assert!(cidr4(addr4("0.0.0.0"), 0, addr4("8.8.8.8")));
    assert!(cidr4(addr4("192.0.2.1"), 32, addr4("192.0.2.1")));
    assert!(!cidr4(addr4("192.0.2.0"), 24, addr4("192.0.3.1")));
    assert!(cidr4(addr4("192.0.2.0"), 24, addr4("192.0.2.255")));
    // IPv4-mapped IPv6 must NOT match an ip4 mechanism (§5.6).
    assert!(!ip_in_net(
        IpAddr::parse("::ffff:192.0.2.1").unwrap(),
        v4("192.0.2.1"),
        32,
        128
    ));
}

#[test]
fn cidr_matching_for_ipv6() {
    assert!(cidr6(addr6("::"), 0, addr6("2001:db8::1")));
    assert!(cidr6(addr6("2001:db8::"), 32, addr6("2001:db8:ffff::1")));
    assert!(!cidr6(addr6("2001:db8::"), 32, addr6("2001:db9::1")));
    assert!(!cidr6(addr6("2001:db8::1"), 128, addr6("2001:db8::2")));
}

#[test]
fn ip4_pass_and_fail() {
    let m = Mock::default().txt("sender.example", "v=spf1 ip4:192.0.2.0/24 -all");
    assert_eq!(
        check(&m, v4("192.0.2.50"), "a@sender.example"),
        SpfResult::Pass
    );
    assert_eq!(
        check(&m, v4("198.51.100.1"), "a@sender.example"),
        SpfResult::Fail
    );
}

#[test]
fn no_record_is_none_and_multiple_is_permerror() {
    let none = Mock::default();
    assert_eq!(
        check(&none, v4("192.0.2.1"), "a@sender.example"),
        SpfResult::NoRecord
    );
    let multi = Mock::default().txt_multi("sender.example", &["v=spf1 -all", "v=spf1 +all"]);
    assert_eq!(
        check(&multi, v4("192.0.2.1"), "a@sender.example"),
        SpfResult::PermError
    );
}

#[test]
fn a_and_mx_mechanisms() {
    let m = Mock::default()
        .txt("sender.example", "v=spf1 a mx -all")
        .ip("sender.example", &["203.0.113.5"])
        .mx("sender.example", &["mx1.sender.example"])
        .ip("mx1.sender.example", &["203.0.113.9"]);
    assert_eq!(
        check(&m, v4("203.0.113.5"), "a@sender.example"),
        SpfResult::Pass // matched `a`
    );
    assert_eq!(
        check(&m, v4("203.0.113.9"), "a@sender.example"),
        SpfResult::Pass // matched `mx`
    );
    assert_eq!(
        check(&m, v4("203.0.113.99"), "a@sender.example"),
        SpfResult::Fail
    );
}

#[test]
fn include_pass_and_none_is_permerror() {
    let m = Mock::default()
        .txt(
            "sender.example",
            "v=spf1 include:_spf.provider.example ~all",
        )
        .txt("_spf.provider.example", "v=spf1 ip4:203.0.113.0/24 -all");
    assert_eq!(
        check(&m, v4("203.0.113.7"), "a@sender.example"),
        SpfResult::Pass
    );
    // A reference to a domain with no SPF record is PermError (§5.2).
    let broken = Mock::default().txt("sender.example", "v=spf1 include:missing.example ~all");
    assert_eq!(
        check(&broken, v4("203.0.113.7"), "a@sender.example"),
        SpfResult::PermError
    );
}

#[test]
fn redirect_is_followed_when_nothing_matches() {
    let m = Mock::default()
        .txt("sender.example", "v=spf1 redirect=_spf.other.example")
        .txt("_spf.other.example", "v=spf1 ip4:192.0.2.0/24 -all");
    assert_eq!(
        check(&m, v4("192.0.2.9"), "a@sender.example"),
        SpfResult::Pass
    );
    assert_eq!(
        check(&m, v4("10.0.0.1"), "a@sender.example"),
        SpfResult::Fail
    );
}

#[test]
fn exceeding_the_lookup_budget_is_permerror() {
    // A long chain of references blows the 10-lookup budget.
    let mut m = Mock::default().txt("d0.example", "v=spf1 include:d1.example -all");
    for i in 1..=12 {
        m = m.txt(
            &format!("d{i}.example"),
            &format!("v=spf1 include:d{}.example -all", i + 1),
        );
    }
    assert_eq!(
        run(&m, v4("192.0.2.1"), "helo", "a@d0.example").0,
        SpfResult::PermError
    );
}

#[test]
fn void_lookup_limit_is_permerror() {
    // Three `a` mechanisms whose targets resolve to nothing: 3 void lookups.
    let m = Mock::default().txt(
        "sender.example",
        "v=spf1 a:void1.example a:void2.example a:void3.example -all",
    );
    assert_eq!(
        check(&m, v4("192.0.2.1"), "a@sender.example"),
        SpfResult::PermError
    );
}

#[test]
fn macro_in_exists_is_expanded_before_lookup() {
    // exists:%{ir}... builds 4.3.2.1.list.example; only that name resolves.
    let m = Mock::default()
        .txt("sender.example", "v=spf1 exists:%{ir}.list.example -all")
        .ip("4.3.2.1.list.example", &["127.0.0.2"]);
    assert_eq!(
        check(&m, v4("1.2.3.4"), "a@sender.example"),
        SpfResult::Pass
    );
}

#[test]
fn null_sender_checks_helo_domain() {
    // Empty MAIL FROM uses postmaster@<helo>; the HELO domain's SPF applies.
    let m = Mock::default().txt("mail.sender.example", "v=spf1 ip4:192.0.2.0/24 -all");
    assert_eq!(check(&m, v4("192.0.2.5"), ""), SpfResult::Pass);
}

#[test]
fn failed_policy_lookup_is_none() {
    let m = Mock {
        fail_txt: true,
        ..Mock::default()
    };
    assert_eq!(
        check(&m, v4("192.0.2.1"), "a@sender.example"),
        SpfResult::NoRecord
    );
}

#[test]
fn exists_needs_an_ipv4_address() {
    let m = Mock::default()
        .txt("sender.example", "v=spf1 exists:list.example -all")
        .ip("list.example", &["2001:db8::1"]);
    assert_eq!(check(&m, v4("1.2.3.4"), "a@sender.example"), SpfResult::Fail);
}

#[test]
fn ptr_needs_a_validated_name_under_the_domain() {
    let client = v4("203.0.113.20");
    let m = Mock::default()
        .txt("sender.example", "v=spf1 ptr -all")
        .ptr(client, &["host.other.example", "mail.sender.example"])
        .ip("mail.sender.example", &["203.0.113.20"]);
    assert_eq!(check(&m, client, "a@sender.example"), SpfResult::Pass);
    let forged = Mock::default()
        .txt("sender.example", "v=spf1 ptr -all")
        .ptr(client, &["mail.sender.example"])
        .ip("mail.sender.example", &["203.0.113.21"]);
    assert_eq!(check(&forged, client, "a@sender.example"), SpfResult::Fail);
}

#[test]
fn evaluation_ends_within_its_budget() {
    // Ten `mx` mechanisms with ten exchanges each: no more than 111 questions.
    let mut m = Mock::default().txt(
        "sender.example",
        "v=spf1 mx:m0.example mx:m1.example mx:m2.example mx:m3.example mx:m4.example \
         mx:m5.example mx:m6.example mx:m7.example mx:m8.example mx:m9.example -all",
    );
    for i in 0..10 {
        let hosts: Vec<String> = (0..10).map(|j| format!("h{j}.m{i}.example")).collect();
        let refs: Vec<&str> = hosts.iter().map(String::as_str).collect();
        m = m.mx(&format!("m{i}.example"), &refs);
        for host in &hosts {
            m = m.ip(host, &["198.51.100.1"]);
        }
    }
    let (result, questions) = run(&m, v4("192.0.2.1"), "helo", "a@sender.example");
    assert_eq!(result, SpfResult::Fail);
    assert!(questions <= 111, "asked {questions} questions");
}

#[test]
fn nothing_matching_is_neutral() {
    let m = Mock::default().txt("sender.example", "v=spf1 ip4:192.0.2.1");
    assert_eq!(check(&m, v4("192.0.2.2"), "a@sender.example"), SpfResult::Neutral);
    let bad = Mock::default().txt("sender.example", "v=spf1 ip4:nonsense");
    assert_eq!(check(&bad, v4("192.0.2.2"), "a@sender.example"), SpfResult::PermError);
}

#[test]
fn nothing_after_all_counts() {
    let mock = Mock::default().txt(
        "d.example",
        "v=spf1 ?all ip4:192.0.2.1 redirect=other.example",
    );
    assert_eq!(run(&mock, v4("192.0.2.1"), "h", "u@d.example"), (SpfResult::Neutral, 1));
}

#[test]
fn spf_results_have_tokens() {
    assert_eq!(SpfResult::NoRecord.as_str(), "none");
    assert_eq!(SpfResult::SoftFail.as_str(), "softfail");
    assert_eq!(SpfResult::TempError.as_str(), "temperror");
    assert_eq!(SpfResult::PermError.as_str(), "permerror");
}

// ---------------------------------------------------------------------------
// Macros
// ---------------------------------------------------------------------------

fn ctx() -> MacroContext<'static> {
    MacroContext {
        ip: IpAddr::V4(Ipv4Addr::new(192, 0, 2, 3)),
        sender_local: "strong-bad",
        sender_domain: "email.example.com",
        helo: "mx.example.com",
        domain: "email.example.com",
    }
}

#[test]
fn expands_simple_letters() {
    let c = ctx();
    assert_eq!(expand("%{s}", &c).unwrap(), "strong-bad@email.example.com");
    assert_eq!(expand("%{l}", &c).unwrap(), "strong-bad");
    assert_eq!(expand("%{o}", &c).unwrap(), "email.example.com");
    assert_eq!(expand("%{d}", &c).unwrap(), "email.example.com");
    assert_eq!(expand("%{i}", &c).unwrap(), "192.0.2.3");
    assert_eq!(expand("%{h}", &c).unwrap(), "mx.example.com");
}

#[test]
fn expands_literals_and_escapes() {
    let c = ctx();
    assert_eq!(expand("%%", &c).unwrap(), "%");
    assert_eq!(expand("%_", &c).unwrap(), " ");
    assert_eq!(expand("%-", &c).unwrap(), "%20");
    assert_eq!(expand("a.%{d}.b", &c).unwrap(), "a.email.example.com.b");
}

#[test]
fn applies_reverse_and_keep_transformers() {
    // RFC 7208 §7.4 worked examples.
    let c = ctx();
    assert_eq!(expand("%{d2}", &c).unwrap(), "example.com");
    assert_eq!(expand("%{dr}", &c).unwrap(), "com.example.email");
    // `r` reverses before the digit keeps the rightmost N (RFC 7208 §7.1):
    // [com, example, email] -> keep 2 -> example.email.
    assert_eq!(expand("%{d2r}", &c).unwrap(), "example.email");
    // Custom delimiter: split local-part on '-'.
    assert_eq!(expand("%{l-}", &c).unwrap(), "strong.bad");
}

#[test]
fn ipv6_i_macro_is_nibble_dotted() {
    let c = MacroContext {
        ip: IpAddr::V6(Ipv6Addr { bits: 1 }),
        ..ctx()
    };
    let i = expand("%{i}", &c).unwrap();
    assert_eq!(i.split('.').count(), 32);
    assert!(i.ends_with("0.1"));
    assert_eq!(expand("%{v}", &c).unwrap(), "ip6");
}

#[test]
fn uppercase_macro_is_url_escaped() {
    let c = MacroContext {
        sender_local: "a b",
        ..ctx()
    };
    // %{S} URL-escapes; the space becomes %20 and '@' becomes %40.
    assert_eq!(expand("%{S}", &c).unwrap(), "a%20b%40email.example.com");
}

#[test]
fn rejects_malformed_macros() {
    let c = ctx();
    assert!(expand("%{i", &c).is_err()); // unterminated
    assert!(expand("%q", &c).is_err()); // invalid escape
    assert!(expand("%{z}", &c).is_err()); // unknown letter
}

#[test]
fn plain_text_expands_to_itself() {
    assert_eq!(expand("_spf.example.com", &ctx()).unwrap(), "_spf.example.com");
}

// ---------------------------------------------------------------------------
// Records
// ---------------------------------------------------------------------------

#[test]
fn parses_qualifiers_and_all() {
    let r = SpfRecord::parse("v=spf1 +a -all").unwrap();
    assert_eq!(r.directives.len(), 2);
    assert_eq!(r.directives[0].qualifier, Qualifier::Pass);
    assert_eq!(r.directives[1].qualifier, Qualifier::Fail);
    assert_eq!(r.directives[1].mechanism, Mechanism::All);
}

#[test]
fn default_qualifier_is_pass() {
    let r = SpfRecord::parse("v=spf1 mx ~all").unwrap();
    assert_eq!(r.directives[0].qualifier, Qualifier::Pass);
    assert_eq!(r.directives[1].qualifier, Qualifier::SoftFail);
}

#[test]
fn parses_ip4_and_ip6_with_and_without_cidr() {
    let r = SpfRecord::parse("v=spf1 ip4:192.0.2.0/24 ip4:198.51.100.7 ip6:2001:db8::/32 -all")
        .unwrap();
    assert_eq!(
        r.directives[0].mechanism,
        Mechanism::Ip4 {
            net: addr4("192.0.2.0"),
            prefix: 24
        }
    );
    assert_eq!(
        r.directives[1].mechanism,
        Mechanism::Ip4 {
            net: addr4("198.51.100.7"),
            prefix: 32
        }
    );
    assert_eq!(
        r.directives[2].mechanism,
        Mechanism::Ip6 {
            net: addr6("2001:db8::"),
            prefix: 32
        }
    );
}

#[test]
fn parses_a_mx_with_domain_and_dual_cidr() {
    let r = SpfRecord::parse("v=spf1 a:mail.example.com/24 mx//64 a/24//64 -all").unwrap();
    assert_eq!(
        r.directives[0].mechanism,
        Mechanism::A {
            domain: Some("mail.example.com".into()),
            v4: 24,
            v6: 128
        }
    );
    assert_eq!(
        r.directives[1].mechanism,
        Mechanism::Mx {
            domain: None,
            v4: 32,
            v6: 64
        }
    );
    assert_eq!(
        r.directives[2].mechanism,
        Mechanism::A {
            domain: None,
            v4: 24,
            v6: 64
        }
    );
}

#[test]
fn parses_include_exists_ptr_and_redirect() {
    let r = SpfRecord::parse(
        "v=spf1 include:_spf.example.net exists:%{i}.example.com ptr:example.com redirect=other.example",
    )
    .unwrap();
    assert_eq!(
        r.directives[0].mechanism,
        Mechanism::Include("_spf.example.net".into())
    );
    assert_eq!(
        r.directives[1].mechanism,
        Mechanism::Exists("%{i}.example.com".into())
    );
    assert_eq!(
        r.directives[2].mechanism,
        Mechanism::Ptr(Some("example.com".into()))
    );
    assert_eq!(r.redirect.as_deref(), Some("other.example"));
}

#[test]
fn rejects_missing_version_and_bad_terms() {
    assert!(SpfRecord::parse("a mx -all").is_err()); // no v=spf1
    assert!(SpfRecord::parse("v=spf1 ip4:not-an-ip").is_err());
    assert!(SpfRecord::parse("v=spf1 ip4:192.0.2.0/40").is_err()); // prefix > 32
    assert!(SpfRecord::parse("v=spf1 frobnicate").is_err()); // unknown mechanism
    assert!(SpfRecord::parse("v=spf1 include").is_err()); // it needs a domain
}

#[test]
fn version_term_is_recognised_without_case() {
    assert!(SpfRecord::is_spf_version("V=SPF1"));
    assert!(!SpfRecord::is_spf_version("v=spf10"));
}

#[test]
fn unusable_senders_are_checked_at_helo() {
    let m = Mock::default().txt("mail.sender.example", "v=spf1 ip4:192.0.2.0/24 -all");
    for from in ["", "nobody", "@sender.example", "a@", "a@b@", "@"] {
        assert_eq!(check(&m, v4("192.0.2.5"), from), SpfResult::Pass, "sender {from}");
        assert_eq!(
            check(&m, v4("198.51.100.1"), from),
            check(&m, v4("198.51.100.1"), "postmaster@mail.sender.example")
        );
        // With no HELO name either there is nobody to ask.
        assert_eq!(run(&m, v4("192.0.2.5"), "", from), (SpfResult::NoRecord, 0));
    }
}

#[test]
fn failed_lookups_never_end_in_a_temporary_error() {
    let m = Mock::default()
        .txt("a.example", "v=spf1 include:b.example a mx ptr exists:x.example redirect=c.example")
        .txt("b.example", "v=spf1 redirect=gone.example");
    for from in ["x@a.example", "x@b.example", "x@gone.example"] {
        assert_ne!(check(&m, v4("192.0.2.1"), from), SpfResult::TempError);
    }
}
