//! DKIM key record (a TXT record at `<selector>._domainkey.<domain>`).

use vstd::prelude::*;

use crate::network::dns::txt::{parse_tag_map, tag, tag_map};
use crate::network::error::{agrees, NetworkError, NetworkErrorView};
use crate::text::opt_view;

verus! {

/// A parsed DKIM public-key record.
#[derive(Debug, Clone, PartialEq, Eq)]
pub struct DkimRecord {
    /// `v=` (usually `DKIM1`).
    pub version: Option<String>,
    /// `k=` key type (e.g. `rsa`, `ed25519`).
    pub key_type: Option<String>,
    /// `p=` base64 public key (required).
    pub public_key: String,
}

/// What a [`DkimRecord`] holds.
pub struct DkimRecordView {
    pub version: Option<Seq<char>>,
    pub key_type: Option<Seq<char>>,
    pub public_key: Seq<char>,
}

impl View for DkimRecord {
    type V = DkimRecordView;

    open spec fn view(&self) -> DkimRecordView {
        DkimRecordView {
            version: opt_view(self.version),
            key_type: opt_view(self.key_type),
            public_key: self.public_key@,
        }
    }
}

impl DkimRecord {
    /// The key record that a TXT record body holds: its `v`, `k` and `p` tags, of
    /// which `p` must be there.
    pub open spec fn parsed(raw: Seq<char>) -> Result<DkimRecordView, NetworkErrorView> {
        let tags = tag_map(raw);
        match tag(tags, "p"@) {
            Some(public_key) => Ok(
                DkimRecordView {
                    version: tag(tags, "v"@),
                    key_type: tag(tags, "k"@),
                    public_key,
                },
            ),
            None => Err(
                NetworkErrorView::Record { kind: "DKIM"@, reason: "missing public key (p=)"@ },
            ),
        }
    }

    /// Parse a DKIM TXT record body.
    ///
    /// # Errors
    /// [`NetworkError::Record`] if the required `p=` tag is missing.
    pub fn parse(raw: &str) -> (r: Result<DkimRecord, NetworkError>)
        ensures
            agrees(r, DkimRecord::parsed(raw@)),
    {
        let tags = parse_tag_map(raw);
        match tags.cloned("p") {
            Some(public_key) => Ok(
                DkimRecord { version: tags.cloned("v"), key_type: tags.cloned("k"), public_key },
            ),
            None => Err(NetworkError::record("DKIM", "missing public key (p=)")),
        }
    }
}

} // verus!
