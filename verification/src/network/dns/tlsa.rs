//! DANE TLSA records (RFC 6698, RFC 7672), modelled independently of any resolver
//! backend.

use vstd::prelude::*;

verus! {

/// TLSA certificate-usage field (RFC 6698 §2.1.1, acronyms per RFC 7218).
#[derive(Debug, Clone, Copy, PartialEq, Eq, Structural)]
pub enum TlsaUsage {
    /// `0` PKIX-TA, CA constraint: PKIX validation plus a CA in the chain must
    /// match. RFC 7672 §3.1.3 advises against this for SMTP.
    PkixTa,
    /// `1` PKIX-EE, service-certificate constraint: PKIX validation plus the
    /// end-entity must match. RFC 7672 §3.1.3 advises against this for SMTP.
    PkixEe,
    /// `2` DANE-TA, trust-anchor assertion: a certificate in the presented chain
    /// must match and the end-entity must chain to it.
    DaneTa,
    /// `3` DANE-EE, domain-issued certificate: match the end-entity directly, with
    /// no PKIX chain or name check (RFC 7672 §3.1.1). The common SMTP case.
    DaneEe,
    /// Any other (unassigned or private-use) value, unusable for SMTP DANE.
    Other(u8),
}

/// TLSA selector field (RFC 6698 §2.1.2): which part of the certificate is matched.
#[derive(Debug, Clone, Copy, PartialEq, Eq, Structural)]
pub enum TlsaSelector {
    /// `0`: the full certificate (DER).
    Full,
    /// `1`: the `SubjectPublicKeyInfo` (DER).
    Spki,
    /// Any other (unassigned or private-use) value, unusable.
    Other(u8),
}

/// TLSA matching-type field (RFC 6698 §2.1.3): how the selected data is presented.
#[derive(Debug, Clone, Copy, PartialEq, Eq, Structural)]
pub enum TlsaMatching {
    /// `0`: exact match on the selected DER content.
    Full,
    /// `1`: SHA-256 of the selected content.
    Sha256,
    /// `2`: SHA-512 of the selected content.
    Sha512,
    /// Any other (unassigned or private-use) value, unusable.
    Other(u8),
}

/// A TLSA resource record (RFC 6698) used to authenticate a TLS peer via DANE.
#[derive(Debug, Clone, PartialEq, Eq)]
pub struct TlsaRecord {
    /// How the association is used (CA or EE; PKIX or DANE).
    pub usage: TlsaUsage,
    /// Which part of the certificate the association covers.
    pub selector: TlsaSelector,
    /// How `data` represents the selected content (raw DER or a digest).
    pub matching: TlsaMatching,
    /// The certificate association data: the raw selected DER, or its digest.
    pub data: Vec<u8>,
}

/// What a [`TlsaRecord`] holds.
pub struct TlsaRecordView {
    pub usage: TlsaUsage,
    pub selector: TlsaSelector,
    pub matching: TlsaMatching,
    pub data: Seq<u8>,
}

impl View for TlsaRecord {
    type V = TlsaRecordView;

    open spec fn view(&self) -> TlsaRecordView {
        TlsaRecordView {
            usage: self.usage,
            selector: self.selector,
            matching: self.matching,
            data: self.data@,
        }
    }
}

/// The views of a sequence of records.
pub open spec fn tlsa_views(records: Seq<TlsaRecord>) -> Seq<TlsaRecordView> {
    records.map_values(|r: TlsaRecord| r@)
}

impl TlsaUsage {
    /// The usage that an on-the-wire octet stands for.
    pub open spec fn of(value: u8) -> TlsaUsage {
        if value == 0 {
            TlsaUsage::PkixTa
        } else if value == 1 {
            TlsaUsage::PkixEe
        } else if value == 2 {
            TlsaUsage::DaneTa
        } else if value == 3 {
            TlsaUsage::DaneEe
        } else {
            TlsaUsage::Other(value)
        }
    }

    /// Map the on-the-wire octet to a [`TlsaUsage`].
    pub fn from_u8(value: u8) -> (r: TlsaUsage)
        ensures
            r == TlsaUsage::of(value),
    {
        match value {
            0 => TlsaUsage::PkixTa,
            1 => TlsaUsage::PkixEe,
            2 => TlsaUsage::DaneTa,
            3 => TlsaUsage::DaneEe,
            other => TlsaUsage::Other(other),
        }
    }
}

impl TlsaSelector {
    /// The selector that an on-the-wire octet stands for.
    pub open spec fn of(value: u8) -> TlsaSelector {
        if value == 0 {
            TlsaSelector::Full
        } else if value == 1 {
            TlsaSelector::Spki
        } else {
            TlsaSelector::Other(value)
        }
    }

    /// Map the on-the-wire octet to a [`TlsaSelector`].
    pub fn from_u8(value: u8) -> (r: TlsaSelector)
        ensures
            r == TlsaSelector::of(value),
    {
        match value {
            0 => TlsaSelector::Full,
            1 => TlsaSelector::Spki,
            other => TlsaSelector::Other(other),
        }
    }
}

impl TlsaMatching {
    /// The matching type that an on-the-wire octet stands for.
    pub open spec fn of(value: u8) -> TlsaMatching {
        if value == 0 {
            TlsaMatching::Full
        } else if value == 1 {
            TlsaMatching::Sha256
        } else if value == 2 {
            TlsaMatching::Sha512
        } else {
            TlsaMatching::Other(value)
        }
    }

    /// Map the on-the-wire octet to a [`TlsaMatching`].
    pub fn from_u8(value: u8) -> (r: TlsaMatching)
        ensures
            r == TlsaMatching::of(value),
    {
        match value {
            0 => TlsaMatching::Full,
            1 => TlsaMatching::Sha256,
            2 => TlsaMatching::Sha512,
            other => TlsaMatching::Other(other),
        }
    }
}

} // verus!
