//! TLS configurations from PEM material.
//!
//! A configuration is rustls's own value; what stands here is which certificates and
//! keys go into it, and which fault in the material is reported.

use rustls::pki_types::{CertificateDer, PrivateKeyDer, ServerName};
use rustls::{ClientConfig, RootCertStore, ServerConfig};
use std::io::BufReader;
use std::sync::Arc;
use vstd::prelude::*;
use vstd::slice::slice_to_vec;

use crate::network::error::{NetworkError, NetworkErrorView};
use crate::text::{blobs, concat3};

verus! {

// ---------------------------------------------------------------------------
// What rustls provides
// ---------------------------------------------------------------------------

/// rustls's server configuration.
#[verifier::external_type_specification]
#[verifier::external_body]
pub struct ExServerConfig(ServerConfig);

/// rustls's client configuration.
#[verifier::external_type_specification]
#[verifier::external_body]
pub struct ExClientConfig(ClientConfig);

/// rustls's collection of trust anchors.
#[verifier::external_type_specification]
#[verifier::external_body]
pub struct ExRootCertStore(RootCertStore);

/// A private key in DER, in one of the encodings rustls knows.
#[verifier::external_type_specification]
#[verifier::external_body]
pub struct ExPrivateKeyDer<'a>(PrivateKeyDer<'a>);

/// The DNS name or address by which a client knows its server.
#[verifier::external_type_specification]
#[verifier::external_body]
pub struct ExServerName<'a>(ServerName<'a>);

/// The certificates of a PEM text in order, each in DER, and the faults met between
/// them.
pub uninterp spec fn pem_certificates(pem: Seq<char>) -> Seq<Result<Seq<u8>, Seq<char>>>;

/// The first private key of a PEM text in DER, if it holds one; a fault where a section
/// before it cannot be read.
pub uninterp spec fn pem_private_key(pem: Seq<char>) -> Result<Option<Seq<u8>>, Seq<char>>;

/// The DER of a private key.
pub uninterp spec fn key_der(key: PrivateKeyDer<'static>) -> Seq<u8>;

/// The trust anchor that a certificate makes (its subject, its public key and its
/// name constraints, in DER), or why it makes none.
pub uninterp spec fn certificate_anchor(cert: Seq<u8>) -> Result<
    (Seq<u8>, Seq<u8>, Option<Seq<u8>>),
    Seq<char>,
>;

/// The trust anchors a store holds.
pub uninterp spec fn anchors(store: RootCertStore) -> Seq<(Seq<u8>, Seq<u8>, Option<Seq<u8>>)>;

/// The trust anchors to which a client configuration requires a server's certificate
/// to chain.
pub uninterp spec fn trusted_anchors(config: ClientConfig) -> Seq<
    (Seq<u8>, Seq<u8>, Option<Seq<u8>>),
>;

/// Mozilla's trust anchors, put behind those given.
pub uninterp spec fn with_mozilla(before: Seq<(Seq<u8>, Seq<u8>, Option<Seq<u8>>)>) -> Seq<
    (Seq<u8>, Seq<u8>, Option<Seq<u8>>),
>;

/// The certificate chain a server configuration presents.
pub uninterp spec fn served_chain(config: ServerConfig) -> Seq<Seq<u8>>;

/// The DER of the private key a server configuration signs with.
pub uninterp spec fn signing_key(config: ServerConfig) -> Seq<u8>;

/// Whether a text is a DNS name or an IP address.
pub uninterp spec fn is_server_name(name: Seq<char>) -> bool;

/// The view of one section read from a PEM text.
pub open spec fn section_view(section: Result<Vec<u8>, String>) -> Result<Seq<u8>, Seq<char>> {
    match section {
        Ok(der) => Ok(der@),
        Err(fault) => Err(fault@),
    }
}

/// The views of the sections read from a PEM text.
pub open spec fn section_views(sections: Seq<Result<Vec<u8>, String>>) -> Seq<
    Result<Seq<u8>, Seq<char>>,
> {
    sections.map_values(|s: Result<Vec<u8>, String>| section_view(s))
}

/// The DER of a key that was found, if any, or the fault.
pub open spec fn key_view(key: Result<Option<PrivateKeyDer<'static>>, String>) -> Result<
    Option<Seq<u8>>,
    Seq<char>,
> {
    match key {
        Ok(Some(k)) => Ok(Some(key_der(k))),
        Ok(None) => Ok(None),
        Err(fault) => Err(fault@),
    }
}

/// What adding the anchor of a certificate to a store does: the anchor comes last, or
/// the store stays and the reason is given.
pub open spec fn added(
    before: Seq<(Seq<u8>, Seq<u8>, Option<Seq<u8>>)>,
    after: Seq<(Seq<u8>, Seq<u8>, Option<Seq<u8>>)>,
    anchor: Result<(Seq<u8>, Seq<u8>, Option<Seq<u8>>), Seq<char>>,
    r: Result<(), String>,
) -> bool {
    match anchor {
        Ok(a) => r is Ok && after == before.push(a),
        Err(reason) => r matches Err(e) && e@ == reason && after == before,
    }
}

/// `rustls_pemfile::certs` over the text: the certificates in the order they stand,
/// other sections left out, and in its place the message of each section that cannot
/// be read. The result depends on the text alone.
#[verifier::external_body]
fn read_certificates(pem: &str) -> (r: Vec<Result<Vec<u8>, String>>)
    ensures
        section_views(r@) == pem_certificates(pem@),
{
    rustls_pemfile::certs(&mut BufReader::new(pem.as_bytes()))
        .map(|c| c.map(|der| der.to_vec()).map_err(|e| e.to_string()))
        .collect()
}

/// `rustls_pemfile::private_key` over the text: the first private key, if any, or the
/// message of a section before it that cannot be read. The key's DER, which is what its
/// `secret_der` gives, and the message depend on the text alone.
#[verifier::external_body]
fn read_private_key(pem: &str) -> (r: Result<Option<PrivateKeyDer<'static>>, String>)
    ensures
        key_view(r) == pem_private_key(pem@),
{
    rustls_pemfile::private_key(&mut BufReader::new(pem.as_bytes())).map_err(|e| e.to_string())
}

/// `RootCertStore::empty`: a store without anchors.
pub assume_specification[ RootCertStore::empty ]() -> (r: RootCertStore)
    ensures
        anchors(r).len() == 0,
;

/// `RootCertStore::is_empty`: whether the store has no anchors.
pub assume_specification[ RootCertStore::is_empty ](store: &RootCertStore) -> (r: bool)
    ensures
        r == (anchors(*store).len() == 0),
;

/// `RootCertStore::add`: the anchor of the certificate is put behind those of the
/// store, or the store stays as it is and the message says why the certificate makes
/// no anchor. Both depend on the certificate alone.
#[verifier::external_body]
fn add_root(store: &mut RootCertStore, cert: Vec<u8>) -> (r: Result<(), String>)
    ensures
        added(anchors(*old(store)), anchors(*final(store)), certificate_anchor(cert@), r),
{
    store.add(CertificateDer::from(cert)).map_err(|e| e.to_string())
}

/// `RootCertStore::extend` with `webpki_roots::TLS_SERVER_ROOTS`: Mozilla's anchors
/// are put behind those of the store, and nothing else. There is at least one of them;
/// which they are is what the name `with_mozilla` stands for.
#[verifier::external_body]
fn add_mozilla_roots(store: &mut RootCertStore)
    ensures
        anchors(*final(store)) == with_mozilla(anchors(*old(store))),
        anchors(*old(store)).is_prefix_of(anchors(*final(store))),
        anchors(*old(store)).len() < anchors(*final(store)).len(),
{
    store.extend(webpki_roots::TLS_SERVER_ROOTS.iter().cloned());
}

/// `ClientConfig::builder` with `with_root_certificates` and `with_no_client_auth`: a
/// configuration whose WebPKI verifier trusts exactly the anchors of the store. It
/// uses the crypto provider installed for the process, or aws-lc-rs where none is; a
/// process must not install one without a cipher suite, which rustls does not accept.
#[verifier::external_body]
fn webpki_client(roots: RootCertStore) -> (r: Arc<ClientConfig>)
    ensures
        trusted_anchors(*r) == anchors(roots),
{
    Arc::new(ClientConfig::builder().with_root_certificates(roots).with_no_client_auth())
}

/// `ServerConfig::builder` with `with_no_client_auth` and `with_single_cert`: a
/// configuration that presents the chain and signs with the key. It uses the crypto
/// provider installed for the process, or aws-lc-rs where none is; that provider
/// decides whether the key can be used and belongs to the first certificate, so when
/// it succeeds is not stated.
#[verifier::external_body]
fn single_certificate_server(chain: Vec<Vec<u8>>, key: PrivateKeyDer<'static>) -> (r: Result<
    Arc<ServerConfig>,
    String,
>)
    ensures
        r is Ok ==> served_chain(*r->Ok_0) == blobs(chain@),
        r is Ok ==> signing_key(*r->Ok_0) == key_der(key),
{
    let certs = chain.into_iter().map(CertificateDer::from).collect();
    let built = ServerConfig::builder().with_no_client_auth().with_single_cert(certs, key);
    built.map(Arc::new).map_err(|e| e.to_string())
}

/// `ServerName::try_from`: the name, or the message of rustls's one error where the
/// text is neither a DNS name nor an IP address. Which it is depends on the text
/// alone.
#[verifier::external_body]
fn parse_server_name(name: &str) -> (r: Result<ServerName<'static>, String>)
    ensures
        r is Ok == is_server_name(name@),
        r is Err ==> r->Err_0@ == "invalid dns name"@,
{
    ServerName::try_from(name.to_string()).map_err(|e| e.to_string())
}

// ---------------------------------------------------------------------------
// Certificates and keys
// ---------------------------------------------------------------------------

/// The certificates of a list of sections, or the first fault among them.
pub open spec fn chain_of(sections: Seq<Result<Seq<u8>, Seq<char>>>) -> Result<
    Seq<Seq<u8>>,
    Seq<char>,
>
    decreases sections.len(),
{
    if sections.len() == 0 {
        Ok(Seq::empty())
    } else {
        match (chain_of(sections.drop_last()), sections.last()) {
            (Ok(chain), Ok(der)) => Ok(chain.push(der)),
            (Ok(_), Err(fault)) => Err(fault),
            (Err(fault), _) => Err(fault),
        }
    }
}

/// The anchors that a list of sections makes: those of its certificates in order, or
/// the error for the first section that cannot be read or makes no anchor.
pub open spec fn roots_of(sections: Seq<Result<Seq<u8>, Seq<char>>>) -> Result<
    Seq<(Seq<u8>, Seq<u8>, Option<Seq<u8>>)>,
    NetworkErrorView,
>
    decreases sections.len(),
{
    if sections.len() == 0 {
        Ok(Seq::empty())
    } else {
        match (roots_of(sections.drop_last()), sections.last()) {
            (Ok(roots), Ok(der)) => match certificate_anchor(der) {
                Ok(anchor) => Ok(roots.push(anchor)),
                Err(reason) => Err(NetworkErrorView::Tls("adding root cert: "@ + reason)),
            },
            (Ok(_), Err(fault)) => Err(NetworkErrorView::Tls("reading root cert: "@ + fault)),
            (Err(e), _) => Err(e),
        }
    }
}

/// The error for TLS material: what was being done, and the reason it failed.
fn tls_error(doing: &str, reason: &str) -> (r: NetworkError)
    ensures
        r@ == NetworkErrorView::Tls(doing@ + reason@),
{
    let mut message = doing.to_string();
    message.append(reason);
    NetworkError::Tls(message)
}

/// The certificate chain in the sections read from a PEM text.
///
/// # Errors
/// [`NetworkError::Tls`] for the first section that could not be read.
pub fn certificate_chain(sections: Vec<Result<Vec<u8>, String>>) -> (r: Result<
    Vec<Vec<u8>>,
    NetworkError,
>)
    ensures
        match (r, chain_of(section_views(sections@))) {
            (Ok(chain), Ok(model)) => blobs(chain@) == model,
            (Err(e), Err(fault)) => e@ == NetworkErrorView::Tls("reading certificates: "@ + fault),
            _ => false,
        },
{
    let ghost views = section_views(sections@);
    let mut chain: Vec<Vec<u8>> = Vec::new();
    assert(blobs(chain@) =~= Seq::empty());
    let mut i: usize = 0;
    while i < sections.len()
        invariant
            i <= sections.len(),
            views == section_views(sections@),
            chain_of(views.take(i as int)) == Ok::<Seq<Seq<u8>>, Seq<char>>(blobs(chain@)),
        decreases sections.len() - i,
    {
        proof {
            assert(views.take(i + 1).drop_last() =~= views.take(i as int));
            assert(views.take(i + 1).last() == section_view(sections@[i as int]));
        }
        match &sections[i] {
            Ok(der) => {
                let ghost before = chain@;
                let copy = slice_to_vec(der.as_slice());
                chain.push(copy);
                assert(blobs(chain@) =~= blobs(before).push(der@));
            },
            Err(fault) => {
                proof {
                    lemma_chain_keeps_fault(views, i + 1);
                }
                return Err(tls_error("reading certificates: ", fault.as_str()));
            },
        }
        i = i + 1;
    }
    assert(views.take(i as int) =~= views);
    Ok(chain)
}

proof fn lemma_chain_keeps_fault(sections: Seq<Result<Seq<u8>, Seq<char>>>, n: int)
    requires
        0 <= n <= sections.len(),
        chain_of(sections.take(n)) is Err,
    ensures
        chain_of(sections) == chain_of(sections.take(n)),
    decreases sections.len(),
{
    if n < sections.len() {
        assert(sections.drop_last().take(n) =~= sections.take(n));
        lemma_chain_keeps_fault(sections.drop_last(), n);
    } else {
        assert(sections.take(n) =~= sections);
    }
}

/// A store that trusts the certificates in the sections read from a PEM text.
///
/// # Errors
/// [`NetworkError::Tls`] for the first section that could not be read or makes no
/// trust anchor.
pub fn root_store(sections: Vec<Result<Vec<u8>, String>>) -> (r: Result<
    RootCertStore,
    NetworkError,
>)
    ensures
        match (r, roots_of(section_views(sections@))) {
            (Ok(store), Ok(model)) => anchors(store) == model,
            (Err(e), Err(w)) => e@ == w,
            _ => false,
        },
{
    let ghost views = section_views(sections@);
    let mut store = RootCertStore::empty();
    assert(anchors(store) =~= Seq::empty());
    let mut i: usize = 0;
    while i < sections.len()
        invariant
            i <= sections.len(),
            views == section_views(sections@),
            roots_of(views.take(i as int)) is Ok,
            roots_of(views.take(i as int))->Ok_0 == anchors(store),
        decreases sections.len() - i,
    {
        proof {
            assert(views.take(i + 1).drop_last() =~= views.take(i as int));
            assert(views.take(i + 1).last() == section_view(sections@[i as int]));
        }
        let der = match &sections[i] {
            Ok(der) => slice_to_vec(der.as_slice()),
            Err(fault) => {
                proof {
                    lemma_roots_keep_error(views, i + 1);
                }
                return Err(tls_error("reading root cert: ", fault.as_str()));
            },
        };
        match add_root(&mut store, der) {
            Ok(()) => {},
            Err(reason) => {
                proof {
                    lemma_roots_keep_error(views, i + 1);
                }
                return Err(tls_error("adding root cert: ", reason.as_str()));
            },
        }
        i = i + 1;
    }
    assert(views.take(i as int) =~= views);
    Ok(store)
}

proof fn lemma_roots_keep_error(sections: Seq<Result<Seq<u8>, Seq<char>>>, n: int)
    requires
        0 <= n <= sections.len(),
        roots_of(sections.take(n)) is Err,
    ensures
        roots_of(sections) == roots_of(sections.take(n)),
    decreases sections.len(),
{
    if n < sections.len() {
        assert(sections.drop_last().take(n) =~= sections.take(n));
        lemma_roots_keep_error(sections.drop_last(), n);
    } else {
        assert(sections.take(n) =~= sections);
    }
}

/// The key that a server needs, from what was read for it.
///
/// # Errors
/// [`NetworkError::Tls`] if reading failed or found no key.
pub fn required_key(found: Result<Option<PrivateKeyDer<'static>>, String>) -> (r: Result<
    PrivateKeyDer<'static>,
    NetworkError,
>)
    ensures
        match (r, found) {
            (Ok(key), Ok(Some(k))) => key == k,
            (Err(e), Ok(None)) => e@ == NetworkErrorView::Tls("no private key found in PEM"@),
            (Err(e), Err(fault)) => e@ == NetworkErrorView::Tls("reading private key: "@ + fault@),
            _ => false,
        },
{
    match found {
        Ok(Some(key)) => Ok(key),
        Ok(None) => Err(NetworkError::Tls("no private key found in PEM".to_string())),
        Err(fault) => Err(tls_error("reading private key: ", fault.as_str())),
    }
}

// ---------------------------------------------------------------------------
// Configurations
// ---------------------------------------------------------------------------

/// The fault in the material for a server, if it has one: an unreadable certificate,
/// else an unreadable or missing private key.
pub open spec fn server_fault(cert_pem: Seq<char>, key_pem: Seq<char>) -> Option<
    NetworkErrorView,
> {
    match (chain_of(pem_certificates(cert_pem)), pem_private_key(key_pem)) {
        (Err(fault), _) => Some(NetworkErrorView::Tls("reading certificates: "@ + fault)),
        (Ok(_), Err(fault)) => Some(NetworkErrorView::Tls("reading private key: "@ + fault)),
        (Ok(_), Ok(None)) => Some(NetworkErrorView::Tls("no private key found in PEM"@)),
        (Ok(_), Ok(Some(_))) => None,
    }
}

/// Builders for rustls server and client configurations from PEM material.
pub struct TlsConfig;

impl TlsConfig {
    /// Build a server configuration from a PEM certificate chain and a PEM private key.
    ///
    /// # Errors
    /// [`NetworkError::Tls`] if the PEM is malformed or contains no private key, or if
    /// rustls accepts no server with that chain and that key.
    pub fn server_from_pem(cert_pem: &str, key_pem: &str) -> (r: Result<
        Arc<ServerConfig>,
        NetworkError,
    >)
        ensures
            match server_fault(cert_pem@, key_pem@) {
                Some(fault) => r matches Err(e) && e@ == fault,
                None => match r {
                    Ok(config) => {
                        &&& chain_of(pem_certificates(cert_pem@)) == Ok::<
                            Seq<Seq<u8>>,
                            Seq<char>,
                        >(served_chain(*config))
                        &&& pem_private_key(key_pem@) == Ok::<Option<Seq<u8>>, Seq<char>>(
                            Some(signing_key(*config)),
                        )
                    },
                    Err(e) => e@ matches NetworkErrorView::Tls(message)
                        && "building server config: "@.is_prefix_of(message),
                },
            },
    {
        let chain = match certificate_chain(read_certificates(cert_pem)) {
            Ok(chain) => chain,
            Err(e) => {
                return Err(e);
            },
        };
        let key = match required_key(read_private_key(key_pem)) {
            Ok(key) => key,
            Err(e) => {
                return Err(e);
            },
        };
        match single_certificate_server(chain, key) {
            Ok(config) => Ok(config),
            Err(reason) => Err(tls_error("building server config: ", reason.as_str())),
        }
    }

    /// Build a client configuration that trusts the given PEM root certificates.
    ///
    /// # Errors
    /// [`NetworkError::Tls`] if a root certificate cannot be parsed or added.
    pub fn client_trusting_pem(root_pem: &str) -> (r: Result<Arc<ClientConfig>, NetworkError>)
        ensures
            match (r, roots_of(pem_certificates(root_pem@))) {
                (Ok(config), Ok(roots)) => trusted_anchors(*config) == roots,
                (Err(e), Err(w)) => e@ == w,
                _ => false,
            },
    {
        match root_store(read_certificates(root_pem)) {
            Ok(roots) => Ok(webpki_client(roots)),
            Err(e) => Err(e),
        }
    }

    /// Build a client configuration that authenticates the peer against the Mozilla PKIX
    /// trust anchors (`webpki-roots`), with full WebPKI chain and host name verification.
    ///
    /// This is the configuration to use whenever the peer's identity must be proven:
    /// fetching an MTA-STS policy over HTTPS (RFC 8461 §3.3 requires a valid PKIX
    /// certificate for `mta-sts.<domain>`), and relaying to a mail exchange under an
    /// MTA-STS `enforce` policy (RFC 8461 §4.1).
    ///
    /// # Errors
    /// None: the bundled trust anchor set is not empty.
    pub fn pkix_client() -> (r: Result<Arc<ClientConfig>, NetworkError>)
        ensures
            r is Ok,
            trusted_anchors(*r->Ok_0) == with_mozilla(Seq::empty()),
            trusted_anchors(*r->Ok_0).len() > 0,
    {
        let mut roots = RootCertStore::empty();
        assert(anchors(roots) =~= Seq::empty());
        add_mozilla_roots(&mut roots);
        if roots.is_empty() {
            return Err(
                NetworkError::Tls("no PKIX trust anchors available from webpki-roots".to_string()),
            );
        }
        Ok(webpki_client(roots))
    }
}

/// The name a client gives to the TLS layer for the server it connects to.
///
/// # Errors
/// [`NetworkError::Tls`] if `name` is neither a DNS name nor an IP address.
pub fn server_name(name: &str) -> (r: Result<ServerName<'static>, NetworkError>)
    ensures
        r is Ok == is_server_name(name@),
        r is Err ==> r->Err_0@ == NetworkErrorView::Tls(
            "invalid server name `"@ + name@ + "`: "@ + "invalid dns name"@,
        ),
{
    match parse_server_name(name) {
        Ok(parsed) => Ok(parsed),
        Err(reason) => {
            let doing = concat3("invalid server name `", name, "`: ");
            Err(tls_error(doing.as_str(), reason.as_str()))
        },
    }
}

} // verus!
