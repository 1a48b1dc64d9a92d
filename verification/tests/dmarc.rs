//! DMARC: organizational domains, alignment, policy.

use snail::network::dmarc::eval::{
    align_plain, aligned, apply_pct, evaluate, org_from_registrable, organizational_domain,
    DmarcDisposition, DmarcResult, DmarcStep,
};
use snail::network::dns::dmarc::{AlignmentMode, DmarcPolicy};
use snail::network::dns::lookup::{dmarc_name, lookup_dmarc};
use snail::network::dns::txt::TxtRecord;
use snail::network::spf::SpfResult;

/// Evaluate against canned TXT records, as a resolver would answer them.
fn evaluate_with(
    zone: &[(&str, &str)],
    from: &str,
    spf: SpfResult,
    spf_domain: &str,
    dkim: &[&str],
    sample: u32,
) -> DmarcResult {
    let mut records = Vec::new();
    loop {
        match evaluate(from, spf, spf_domain, dkim, sample, &records) {
            DmarcStep::Done(result) => return result,
            DmarcStep::Ask(domain) => {
                assert!(records.len() < 2, "two lookups are enough");
                let name = dmarc_name(&domain);
                let txts: Vec<TxtRecord> = zone
                    .iter()
                    .filter(|(n, _)| *n == name)
                    .map(|(_, v)| TxtRecord((*v).to_string()))
                    .collect();
                records.push(lookup_dmarc(&txts, &domain).ok());
            }
        }
    }
}

#[test]
fn org_domain_uses_public_suffix_list() {
    assert_eq!(organizational_domain("mail.example.com"), "example.com");
    assert_eq!(organizational_domain("a.b.example.co.uk"), "example.co.uk");
    assert_eq!(organizational_domain("Example.COM"), "example.com");
}

#[test]
fn relaxed_alignment_respects_multilabel_tlds() {
    // Same org under co.uk aligns; different registrable domains do not.
    assert!(aligned(
        "mail.example.co.uk",
        "news.example.co.uk",
        AlignmentMode::Relaxed
    ));
    assert!(!aligned(
        "evil.co.uk",
        "example.co.uk",
        AlignmentMode::Relaxed
    ));
    // Strict requires an exact match.
    assert!(!aligned(
        "mail.example.com",
        "example.com",
        AlignmentMode::Strict
    ));
    assert!(aligned("example.com", "example.com", AlignmentMode::Strict));
}

#[test]
fn no_record_is_none_disposition() {
    let r = evaluate_with(&[], "example.com", SpfResult::Fail, "example.com", &[], 0);
    assert!(!r.record_found);
    assert_eq!(r.disposition, DmarcDisposition::Deliver);
    assert_eq!(r.as_str(), "none");
}

#[test]
fn passes_on_aligned_spf() {
    let r = evaluate_with(
        &[("_dmarc.example.com", "v=DMARC1; p=reject")],
        "example.com",
        SpfResult::Pass,
        "mail.example.com", // relaxed-aligned with example.com
        &[],
        0,
    );
    assert!(r.pass && r.spf_aligned);
    assert_eq!(r.disposition, DmarcDisposition::Deliver);
    assert_eq!(r.as_str(), "pass");
}

#[test]
fn passes_on_aligned_dkim_even_if_spf_fails() {
    let r = evaluate_with(
        &[("_dmarc.example.com", "v=DMARC1; p=reject")],
        "example.com",
        SpfResult::Fail,
        "bounce.other.test",
        &["example.com"], // aligned DKIM d=
        0,
    );
    assert!(r.pass && r.dkim_aligned && !r.spf_aligned);
}

#[test]
fn fails_and_rejects_when_unaligned() {
    let r = evaluate_with(
        &[("_dmarc.example.com", "v=DMARC1; p=reject")],
        "example.com",
        SpfResult::Pass,
        "attacker.test", // not aligned with example.com
        &["attacker.test"],
        99,
    );
    assert!(!r.pass);
    assert_eq!(r.disposition, DmarcDisposition::Reject);
    assert_eq!(r.as_str(), "fail");
}

#[test]
fn strict_alignment_rejects_subdomain_spf() {
    // aspf=s: mail.example.com does NOT strictly align with example.com.
    let r = evaluate_with(
        &[("_dmarc.example.com", "v=DMARC1; p=quarantine; aspf=s")],
        "example.com",
        SpfResult::Pass,
        "mail.example.com",
        &[],
        0,
    );
    assert!(!r.pass);
    assert_eq!(r.disposition, DmarcDisposition::Quarantine);
}

#[test]
fn org_domain_fallback_and_subdomain_policy() {
    // No record at the subdomain; the org record applies `sp` to the subdomain.
    let r = evaluate_with(
        &[("_dmarc.example.com", "v=DMARC1; p=none; sp=reject")],
        "sub.example.com",
        SpfResult::Fail,
        "attacker.test",
        &[],
        0,
    );
    assert!(r.record_found && !r.pass);
    // `sp=reject` applies because the From domain is a subdomain.
    assert_eq!(r.disposition, DmarcDisposition::Reject);
}

#[test]
fn pct_zero_downgrades_reject_to_quarantine() {
    let r = evaluate_with(
        &[("_dmarc.example.com", "v=DMARC1; p=reject; pct=0")],
        "example.com",
        SpfResult::Fail,
        "attacker.test",
        &[],
        0,
    );
    // pct=0 never applies the full policy: reject downgrades to quarantine.
    assert_eq!(r.disposition, DmarcDisposition::Quarantine);
}

#[test]
fn subdomain_policy_does_not_reach_the_organizational_domain() {
    for from in ["example.com", "EXAMPLE.com", "example.com."] {
        let r = evaluate_with(
            &[("_dmarc.example.com", "v=DMARC1; p=none; sp=reject")],
            from,
            SpfResult::Fail,
            "attacker.test",
            &[],
            0,
        );
        assert_eq!(r.disposition, DmarcDisposition::Deliver, "From domain {from}");
    }
}

#[test]
fn sampling_spares_what_falls_outside_the_percentage() {
    assert_eq!(apply_pct(DmarcPolicy::Reject, 20, 19), DmarcDisposition::Reject);
    assert_eq!(apply_pct(DmarcPolicy::Reject, 20, 20), DmarcDisposition::Quarantine);
    assert_eq!(apply_pct(DmarcPolicy::Quarantine, 20, 20), DmarcDisposition::Deliver);
    assert_eq!(apply_pct(DmarcPolicy::Quarantine, 100, 99), DmarcDisposition::Quarantine);
    assert_eq!(apply_pct(DmarcPolicy::Monitor, 100, 0), DmarcDisposition::Deliver);
}

#[test]
fn strictly_aligned_domains_are_aligned() {
    for (a, b) in [("example.com", "Example.COM."), ("mail.example.co.uk", "mail.example.co.uk")] {
        assert!(aligned(a, b, AlignmentMode::Strict));
        assert!(aligned(a, b, AlignmentMode::Relaxed));
    }
}

#[test]
fn a_pass_needs_an_aligned_identifier() {
    let r = evaluate_with(
        &[("_dmarc.example.com", "v=DMARC1; p=none")],
        "example.com",
        SpfResult::SoftFail,
        "example.com", // aligned, but it did not pass
        &[],
        0,
    );
    assert!(!r.pass && !r.spf_aligned && !r.dkim_aligned);
}

#[test]
fn alignment_compares_without_case_and_root_dot() {
    assert!(aligned("EXAMPLE.com.", "example.COM", AlignmentMode::Strict));
    assert!(align_plain("a.x.test", "b.x.test", AlignmentMode::Relaxed, "x.test", "x.test"));
    assert!(!align_plain("a.x.test", "b.x.test", AlignmentMode::Strict, "x.test", "x.test"));
    assert!(!align_plain("a.x.test", "b.y.test", AlignmentMode::Relaxed, "x.test", "y.test"));
}

#[test]
fn organizational_domain_falls_back_to_the_domain() {
    assert_eq!(org_from_registrable("localhost".to_string(), None), "localhost");
    assert_eq!(
        org_from_registrable("a.example.com".to_string(), Some("Example.com".to_string())),
        "example.com"
    );
    assert_eq!(organizational_domain("com"), "com");
}

#[test]
fn dispositions_have_tokens() {
    assert_eq!(DmarcDisposition::Deliver.as_str(), "none");
    assert_eq!(DmarcDisposition::Quarantine.as_str(), "quarantine");
    assert_eq!(DmarcDisposition::Reject.as_str(), "reject");
}

#[test]
fn alignment_is_symmetric_and_ignores_how_domains_are_written() {
    let domains = ["example.com", "mail.example.com", "a.example.co.uk", "evil.co.uk", "host"];
    for mode in [AlignmentMode::Strict, AlignmentMode::Relaxed] {
        for a in domains {
            for b in domains {
                let expected = aligned(a, b, mode);
                assert_eq!(aligned(b, a, mode), expected);
                assert_eq!(aligned(&a.to_uppercase(), b, mode), expected);
                assert_eq!(aligned(a, &b.to_uppercase(), mode), expected);
                assert_eq!(aligned(&format!("{a}."), b, mode), expected);
                assert_eq!(aligned(a, &format!(" {b}. "), mode), expected);
            }
            assert!(!aligned("", a, mode));
            assert!(!aligned(" . ", a, mode));
        }
    }
}
