//! DMARC policy record (a TXT record at `_dmarc.<domain>`).

use vstd::prelude::*;

use crate::network::dns::txt::{parse_tag_map, tag, tag_map};
use crate::network::error::{agrees, NetworkError, NetworkErrorView};
use crate::text::{chars_of, number, opt_view, parse_number, str_eq};

verus! {

/// DMARC `p=` policy.
#[derive(Debug, Clone, Copy, PartialEq, Eq, Structural)]
pub enum DmarcPolicy {
    /// `none`: monitor only.
    Monitor,
    /// `quarantine`: treat failing mail as suspicious.
    Quarantine,
    /// `reject`: refuse failing mail.
    Reject,
}

/// DMARC identifier-alignment mode (`adkim=`, `aspf=`).
#[derive(Debug, Clone, Copy, PartialEq, Eq, Structural)]
pub enum AlignmentMode {
    /// `r`, relaxed: the organizational domains must match (the default).
    Relaxed,
    /// `s`, strict: the domains must match exactly.
    Strict,
}

impl AlignmentMode {
    /// The mode that a tag value names: strict for `s`, otherwise relaxed.
    pub open spec fn named(value: Option<Seq<char>>) -> AlignmentMode {
        if value == Some("s"@) {
            AlignmentMode::Strict
        } else {
            AlignmentMode::Relaxed
        }
    }

    fn parse(value: Option<&String>) -> (r: AlignmentMode)
        ensures
            r == AlignmentMode::named(
                match value {
                    Some(v) => Some(v@),
                    None => None,
                },
            ),
    {
        match value {
            Some(v) => if str_eq(v.as_str(), "s") {
                AlignmentMode::Strict
            } else {
                AlignmentMode::Relaxed
            },
            None => AlignmentMode::Relaxed,
        }
    }
}

/// A parsed DMARC record.
#[derive(Debug, PartialEq, Eq)]
pub struct DmarcRecord {
    /// `p=` policy (required; identifies the record as DMARC).
    pub policy: DmarcPolicy,
    /// `sp=` subdomain policy (applies when the From domain is a subdomain of the
    /// domain that published this record); falls back to `policy` when absent.
    pub subdomain_policy: Option<DmarcPolicy>,
    /// `adkim=` DKIM alignment mode (default relaxed).
    pub adkim: AlignmentMode,
    /// `aspf=` SPF alignment mode (default relaxed).
    pub aspf: AlignmentMode,
    /// `pct=` percentage of failing mail the policy is applied to (default 100).
    pub pct: u8,
    /// `rua=` aggregate-report URI(s), if present.
    pub rua: Option<String>,
}

/// What a [`DmarcRecord`] holds.
pub struct DmarcRecordView {
    pub policy: DmarcPolicy,
    pub subdomain_policy: Option<DmarcPolicy>,
    pub adkim: AlignmentMode,
    pub aspf: AlignmentMode,
    pub pct: nat,
    pub rua: Option<Seq<char>>,
}

impl View for DmarcRecord {
    type V = DmarcRecordView;

    open spec fn view(&self) -> DmarcRecordView {
        DmarcRecordView {
            policy: self.policy,
            subdomain_policy: self.subdomain_policy,
            adkim: self.adkim,
            aspf: self.aspf,
            pct: self.pct as nat,
            rua: opt_view(self.rua),
        }
    }
}

impl Clone for DmarcRecord {
    fn clone(&self) -> (r: DmarcRecord)
        ensures
            r@ == self@,
    {
        DmarcRecord {
            policy: self.policy,
            subdomain_policy: self.subdomain_policy,
            adkim: self.adkim,
            aspf: self.aspf,
            pct: self.pct,
            rua: match &self.rua {
                Some(rua) => Some(rua.clone()),
                None => None,
            },
        }
    }
}

/// The policy that a tag value names.
pub open spec fn policy_named(value: Seq<char>) -> Option<DmarcPolicy> {
    if value == "none"@ {
        Some(DmarcPolicy::Monitor)
    } else if value == "quarantine"@ {
        Some(DmarcPolicy::Quarantine)
    } else if value == "reject"@ {
        Some(DmarcPolicy::Reject)
    } else {
        None
    }
}

/// The policy that an optional tag value names, if it is there and names one.
pub open spec fn policy_tag(value: Option<Seq<char>>) -> Option<DmarcPolicy> {
    match value {
        Some(v) => policy_named(v),
        None => None,
    }
}

/// The percentage that a `pct=` tag gives: a number of at most 100, otherwise 100.
pub open spec fn pct_tag(value: Option<Seq<char>>) -> nat {
    match value {
        Some(v) => match number(v, 100) {
            Some(n) => n,
            None => 100,
        },
        None => 100,
    }
}

fn parse_policy(value: Option<&String>) -> (r: Option<DmarcPolicy>)
    ensures
        r == policy_tag(
            match value {
                Some(v) => Some(v@),
                None => None,
            },
        ),
{
    match value {
        Some(v) => {
            if str_eq(v.as_str(), "none") {
                Some(DmarcPolicy::Monitor)
            } else if str_eq(v.as_str(), "quarantine") {
                Some(DmarcPolicy::Quarantine)
            } else if str_eq(v.as_str(), "reject") {
                Some(DmarcPolicy::Reject)
            } else {
                None
            }
        },
        None => None,
    }
}

impl DmarcRecord {
    /// The record that a TXT record body holds: its version must be `DMARC1` and its
    /// `p` tag must name a policy; a bad `sp` or `pct` counts as absent.
    pub open spec fn parsed(raw: Seq<char>) -> Result<DmarcRecordView, NetworkErrorView> {
        let tags = tag_map(raw);
        let policy = policy_tag(tag(tags, "p"@));
        if tag(tags, "v"@) != Some("DMARC1"@) {
            Err(NetworkErrorView::Record { kind: "DMARC"@, reason: "not a DMARC1 record"@ })
        } else if policy is None {
            Err(NetworkErrorView::Record { kind: "DMARC"@, reason: "missing or invalid p="@ })
        } else {
            Ok(
                DmarcRecordView {
                    policy: policy->0,
                    subdomain_policy: policy_tag(tag(tags, "sp"@)),
                    adkim: AlignmentMode::named(tag(tags, "adkim"@)),
                    aspf: AlignmentMode::named(tag(tags, "aspf"@)),
                    pct: pct_tag(tag(tags, "pct"@)),
                    rua: tag(tags, "rua"@),
                },
            )
        }
    }

    /// Parse a DMARC TXT record body.
    ///
    /// # Errors
    /// [`NetworkError::Record`] if `v=DMARC1` or a valid `p=` policy is absent.
    pub fn parse(raw: &str) -> (r: Result<DmarcRecord, NetworkError>)
        ensures
            agrees(r, DmarcRecord::parsed(raw@)),
    {
        let tags = parse_tag_map(raw);
        let dmarc1 = match tags.get("v") {
            Some(v) => str_eq(v.as_str(), "DMARC1"),
            None => false,
        };
        if !dmarc1 {
            return Err(NetworkError::record("DMARC", "not a DMARC1 record"));
        }
        let policy = match parse_policy(tags.get("p")) {
            Some(policy) => policy,
            None => {
                return Err(NetworkError::record("DMARC", "missing or invalid p="));
            },
        };
        let pct: u8 = match tags.get("pct") {
            Some(p) => {
                let chars = chars_of(p.as_str());
                match parse_number(chars.as_slice(), 100) {
                    Some(n) => n as u8,
                    None => 100,
                }
            },
            None => 100,
        };
        Ok(
            DmarcRecord {
                policy,
                subdomain_policy: parse_policy(tags.get("sp")),
                adkim: AlignmentMode::parse(tags.get("adkim")),
                aspf: AlignmentMode::parse(tags.get("aspf")),
                pct,
                rua: tags.cloned("rua"),
            },
        )
    }
}

} // verus!
