//! Audit events, the in-memory log and the hash-chained record.

use blake2::{Blake2b512, Digest};

use snail::ip::{IpAddr, Ipv4Addr, Ipv6Addr};
use snail::security::audit::{AuditConfig, AuditEvent, AuditLog, ChainStatus, DurableAuditSink};

fn ip(n: u8) -> IpAddr {
    IpAddr::V4(Ipv4Addr::new(10, 0, 0, n))
}

/// A chain file in memory.
struct Chain {
    text: String,
    sink: DurableAuditSink,
}

impl Chain {
    fn open(text: &str) -> Chain {
        Chain {
            text: text.to_string(),
            sink: DurableAuditSink::open(text).unwrap(),
        }
    }

    fn append(&mut self, event: AuditEvent) {
        assert!(!self.sink.is_exhausted());
        let (line, next) = self.sink.append(1_700_000_000, &event);
        self.text.push_str(&line);
        self.sink = next;
    }
}

#[test]
fn records_events_in_order() {
    let mut log = AuditLog::new(&AuditConfig::default());
    log.record(AuditEvent::AuthSuccess {
        user: "alice".into(),
    });
    log.record(AuditEvent::RateLimited { ip: ip(1) });
    let recent = log.recent();
    assert_eq!(recent.len(), 2);
    assert_eq!(
        recent[0],
        AuditEvent::AuthSuccess {
            user: "alice".into()
        }
    );
    assert_eq!(recent[1], AuditEvent::RateLimited { ip: ip(1) });
}

#[test]
fn ring_is_bounded_to_capacity() {
    let mut log = AuditLog::new(&AuditConfig {
        capacity: 2,
        sink_path: None,
    });
    for n in 0..5 {
        log.record(AuditEvent::RateLimited { ip: ip(n) });
    }
    assert_eq!(log.len(), 2);
    // Oldest (ip 0..2) evicted; the two most recent remain.
    assert_eq!(log.recent()[0], AuditEvent::RateLimited { ip: ip(3) });
    assert_eq!(log.recent()[1], AuditEvent::RateLimited { ip: ip(4) });
}

#[test]
fn configured_sink_persists_events_durably_beyond_the_ring() {
    // A ring capacity of 1 loses all but the last event, but the chain keeps every one.
    let mut log = AuditLog::new(&AuditConfig {
        capacity: 1,
        sink_path: None,
    });
    let mut chain = Chain::open("");
    for event in [
        AuditEvent::FirewallPaused,
        AuditEvent::RateLimited { ip: ip(1) },
        AuditEvent::FirewallResumed,
    ] {
        chain.append(event.clone());
        log.record(event);
    }
    assert_eq!(log.len(), 1);
    assert_eq!(
        DurableAuditSink::verify(&chain.text),
        ChainStatus::Valid { records: 3 },
        "every event must persist despite a capacity-1 ring"
    );
}

#[test]
fn append_persists_reopens_and_continues_the_chain() {
    let mut chain = Chain::open("");
    chain.append(AuditEvent::FirewallPaused);
    chain.append(AuditEvent::AuthFailure {
        user: "bob@example.com".into(),
        ip: ip(7),
    });

    // A fresh handle continues the same chain (seq resumes, prev_hash links).
    let mut chain = Chain::open(&chain.text);
    chain.append(AuditEvent::FirewallResumed);

    // All three records verify as one unbroken chain.
    assert_eq!(
        DurableAuditSink::verify(&chain.text),
        ChainStatus::Valid { records: 3 }
    );
    let numbers: Vec<&str> = chain
        .text
        .lines()
        .map(|l| l.split('\t').next().unwrap())
        .collect();
    assert_eq!(numbers, vec!["0", "1", "2"]);
}

#[test]
fn tampering_with_a_record_breaks_the_chain() {
    let mut chain = Chain::open("");
    chain.append(AuditEvent::AuthSuccess {
        user: "alice".into(),
    });
    chain.append(AuditEvent::RateLimited { ip: ip(9) });
    chain.append(AuditEvent::FirewallPaused);

    // Rewrite the first record's event field: the recomputed hash no longer
    // matches, and because each later hash chains off it, verification fails
    // at the tampered line.
    let original = chain.text;
    let tampered = original.replacen("auth_success user=alice", "auth_success user=mallory", 1);
    assert_ne!(original, tampered, "the test must actually mutate a record");

    assert_eq!(
        DurableAuditSink::verify(&tampered),
        ChainStatus::BrokenAt { line: 0 }
    );
}

#[test]
fn truncating_a_trailing_record_is_detected() {
    let mut chain = Chain::open("");
    chain.append(AuditEvent::FirewallPaused);
    chain.append(AuditEvent::FirewallResumed);

    // Corrupt the hash of the last record (a stand-in for in-place edits).
    let mut lines: Vec<String> = chain.text.lines().map(ToString::to_string).collect();
    let last = lines.last_mut().unwrap();
    last.pop(); // drop a hex digit from the trailing hash
    let text = format!("{}\n", lines.join("\n"));

    assert_eq!(
        DurableAuditSink::verify(&text),
        ChainStatus::BrokenAt { line: 1 }
    );
}

#[test]
fn deleting_or_reordering_records_breaks_the_chain() {
    let mut chain = Chain::open("");
    for n in 0..4 {
        chain.append(AuditEvent::RateLimited { ip: ip(n) });
    }
    let lines: Vec<&str> = chain.text.lines().collect();
    let deleted = format!("{}\n{}\n{}\n", lines[0], lines[2], lines[3]);
    assert_eq!(
        DurableAuditSink::verify(&deleted),
        ChainStatus::BrokenAt { line: 1 }
    );
    let swapped = format!("{}\n{}\n{}\n{}\n", lines[0], lines[2], lines[1], lines[3]);
    assert_eq!(
        DurableAuditSink::verify(&swapped),
        ChainStatus::BrokenAt { line: 1 }
    );
    let headless = format!("{}\n{}\n{}\n", lines[1], lines[2], lines[3]);
    assert_eq!(
        DurableAuditSink::verify(&headless),
        ChainStatus::BrokenAt { line: 0 }
    );
}

#[test]
fn a_record_is_framed_as_documented() {
    let sink = DurableAuditSink::open("").unwrap();
    let (line, _) = sink.append(42, &AuditEvent::FirewallPaused);
    let payload = "0\t42\tfirewall_paused";
    let mut hasher = Blake2b512::new();
    hasher.update(b"");
    hasher.update(b"\n");
    hasher.update(payload.as_bytes());
    let hash: String = hasher.finalize().iter().map(|b| format!("{b:02x}")).collect();
    assert_eq!(line, format!("{payload}\t{hash}\n"));
}

#[test]
fn an_empty_chain_is_valid_and_a_torn_line_is_not() {
    assert_eq!(DurableAuditSink::verify(""), ChainStatus::Valid { records: 0 });
    let mut chain = Chain::open("");
    chain.append(AuditEvent::FirewallPaused);
    let torn = format!("{}1", chain.text);
    assert_eq!(DurableAuditSink::verify(&torn), ChainStatus::BrokenAt { line: 1 });
    // The tip is that of the last well-formed record.
    let (from_torn, _) = DurableAuditSink::open(&torn)
        .unwrap()
        .append(9, &AuditEvent::FirewallResumed);
    let (from_whole, _) = DurableAuditSink::open(&chain.text)
        .unwrap()
        .append(9, &AuditEvent::FirewallResumed);
    assert_eq!(from_torn, from_whole);
}

#[test]
fn the_last_number_cannot_be_followed() {
    let text = format!("{}\t0\tfirewall_paused\tabc\n", u64::MAX);
    assert!(DurableAuditSink::open(&text).is_none());
    let text = format!("{}\t0\tfirewall_paused\tabc\n", u64::MAX - 1);
    assert!(DurableAuditSink::open(&text).unwrap().is_exhausted());
}

#[test]
fn events_encode_as_documented() {
    assert_eq!(
        AuditEvent::AuthSuccess { user: "alice".into() }.encode(),
        "auth_success user=alice"
    );
    assert_eq!(
        AuditEvent::AuthFailure { user: "bob".into(), ip: ip(7) }.encode(),
        "auth_failure user=bob ip=10.0.0.7"
    );
    assert_eq!(
        AuditEvent::Blocked {
            ip: IpAddr::V6(Ipv6Addr { bits: 1 }),
            reason: "blocklisted".into()
        }
        .encode(),
        "blocked ip=::1 reason=blocklisted"
    );
    assert_eq!(
        AuditEvent::RateLimited { ip: ip(1) }.encode(),
        "rate_limited ip=10.0.0.1"
    );
    assert_eq!(AuditEvent::FirewallPaused.encode(), "firewall_paused");
    assert_eq!(AuditEvent::FirewallResumed.encode(), "firewall_resumed");
}

#[test]
fn control_characters_never_reach_a_record() {
    let user: String = (0u32..0x300).filter_map(char::from_u32).collect();
    let encoded = AuditEvent::AuthSuccess { user: user.clone() }.encode();
    assert!(encoded.chars().all(|c| !c.is_control()));
    let expected: String = user
        .chars()
        .map(|c| if c.is_control() { ' ' } else { c })
        .collect();
    assert_eq!(encoded, format!("auth_success user={expected}"));
}

#[test]
fn audit_defaults() {
    let c = AuditConfig::default();
    assert_eq!(c.capacity, 1024);
    assert!(c.sink_path.is_none());
    let mut log = AuditLog::new(&AuditConfig { capacity: 0, sink_path: None });
    assert!(log.is_empty());
    log.record(AuditEvent::FirewallPaused);
    log.record(AuditEvent::FirewallResumed);
    assert_eq!(log.recent(), vec![AuditEvent::FirewallResumed]);
}

#[test]
fn a_torn_line_does_not_poison_the_tip() {
    let next = |text: &str| {
        let (line, _) = DurableAuditSink::open(text)
            .unwrap()
            .append(9, &AuditEvent::FirewallResumed);
        line
    };
    let whole = "0\t1\tx\taa\n";
    let expected = next(whole);
    assert!(expected.starts_with("1\t9\t"));
    assert!(!DurableAuditSink::lacks_line_end(whole));
    // However much of the next record was written before the crash.
    let (record, _) = DurableAuditSink::open(whole)
        .unwrap()
        .append(2, &AuditEvent::FirewallPaused);
    let record = record.trim_end();
    for n in 1..record.len() {
        let torn = format!("{whole}{}", &record[..n]);
        assert_eq!(next(&torn), expected, "torn after {n} characters");
        assert!(DurableAuditSink::lacks_line_end(&torn));
    }
    // A record that lacks only its line end is there.
    let unended = format!("{whole}{record}");
    assert_eq!(next(&unended), next(&format!("{unended}\n")));
    assert!(next(&unended).starts_with("2\t9\t"));
    assert_eq!(next("0\t1\tx\taa"), expected);
    // A line that is no record of four fields is passed over wherever it stands.
    assert_eq!(next(&format!("{whole}1\t2\n")), expected);
    assert_eq!(next(&format!("7\t8\n{whole}")), expected);
    assert_eq!(next(&format!("{whole}1\t2\tx\ty\tz\n")), expected);
    // Behind a torn line that was ended, the next record is recovered.
    let mut chain = Chain::open(&format!("{whole}1\t2"));
    chain.text.push('\n');
    chain.append(AuditEvent::FirewallPaused);
    assert!(next(&chain.text).starts_with("2\t"));
}

#[test]
fn a_missing_line_end_does_not_break_the_chain() {
    let mut chain = Chain::open("");
    chain.append(AuditEvent::FirewallPaused);
    chain.append(AuditEvent::FirewallResumed);
    let unended = chain.text.trim_end().to_string();
    let mut chain = Chain::open(&unended);
    assert!(DurableAuditSink::lacks_line_end(&unended));
    chain.text.push('\n');
    chain.append(AuditEvent::FirewallPaused);
    assert_eq!(
        DurableAuditSink::verify(&chain.text),
        ChainStatus::Valid { records: 3 }
    );
}
