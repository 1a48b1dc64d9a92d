//! TLS configurations from PEM material.

use std::sync::Arc;

use rustls::{ClientConfig, ClientConnection, ServerConfig, ServerConnection};
use snail::network::error::NetworkError;
use snail::network::tls::{certificate_chain, required_key, root_store, server_name, TlsConfig};

/// A self-signed certificate and its key for `localhost`, both in PEM.
fn self_signed() -> (String, String) {
    let ck = rcgen::generate_simple_self_signed(vec!["localhost".to_string()]).unwrap();
    (ck.cert.pem(), ck.key_pair.serialize_pem())
}

fn reason<T>(r: Result<T, NetworkError>) -> String {
    match r {
        Err(NetworkError::Tls(reason)) => reason,
        Err(e) => panic!("another error: {e:?}"),
        Ok(_) => panic!("no error"),
    }
}

/// A PEM text whose certificate section never ends.
fn open_section() -> &'static str {
    "-----BEGIN CERTIFICATE-----\nAAAA\n"
}

#[test]
fn server_config_builds_from_pem() {
    let (cert, key) = self_signed();
    assert!(TlsConfig::server_from_pem(&cert, &key).is_ok());
}

#[test]
fn server_config_rejects_pem_without_key() {
    let (cert, _key) = self_signed();
    assert!(TlsConfig::server_from_pem(&cert, "-----BEGIN X-----\n-----END X-----").is_err());
}

#[test]
fn server_material_faults_are_told_apart() {
    let (cert, key) = self_signed();
    assert_eq!(
        reason(TlsConfig::server_from_pem(&cert, "")),
        "no private key found in PEM"
    );
    assert_eq!(
        reason(TlsConfig::server_from_pem(&cert, &cert)),
        "no private key found in PEM"
    );
    assert!(reason(TlsConfig::server_from_pem(open_section(), "")).starts_with("reading certificates: "));
    assert!(reason(TlsConfig::server_from_pem(&cert, open_section())).starts_with("reading private key: "));
    let (_, other_key) = self_signed();
    assert!(reason(TlsConfig::server_from_pem(&cert, &other_key)).starts_with("building server config: "));
    assert!(reason(TlsConfig::server_from_pem("", &key)).starts_with("building server config: "));
}

#[test]
fn client_trusts_the_certificates_given() {
    let (cert, key) = self_signed();
    assert!(TlsConfig::client_trusting_pem(&cert).is_ok());
    // No certificate at all is no fault: such a client trusts nobody.
    assert!(TlsConfig::client_trusting_pem("").is_ok());
    assert!(TlsConfig::client_trusting_pem(&key).is_ok());
    assert!(reason(TlsConfig::client_trusting_pem(open_section())).starts_with("reading root cert: "));
    let not_a_certificate = "-----BEGIN CERTIFICATE-----\nAAAA\n-----END CERTIFICATE-----\n";
    assert!(reason(TlsConfig::client_trusting_pem(not_a_certificate)).starts_with("adding root cert: "));
}

#[test]
fn first_fault_among_sections_is_reported() {
    let (one, two) = (vec![1u8, 2], vec![3u8]);
    let chain = certificate_chain(vec![Ok(one.clone()), Ok(two.clone())]).unwrap();
    assert_eq!(chain, vec![one.clone(), two.clone()]);
    assert!(certificate_chain(vec![]).unwrap().is_empty());
    let broken = vec![Ok(one.clone()), Err("first".to_string()), Err("second".to_string())];
    assert_eq!(reason(certificate_chain(broken)), "reading certificates: first");

    assert!(root_store(vec![]).unwrap().is_empty());
    // The certificate that makes no anchor stands before the unreadable section.
    let broken = vec![Ok(one), Err("second".to_string())];
    assert!(reason(root_store(broken)).starts_with("adding root cert: "));
    let broken = vec![Err("first".to_string()), Ok(two)];
    assert_eq!(reason(root_store(broken)), "reading root cert: first");
}

#[test]
fn key_is_required() {
    assert_eq!(reason(required_key(Ok(None))), "no private key found in PEM");
    assert_eq!(
        reason(required_key(Err("torn".to_string()))),
        "reading private key: torn"
    );
}

#[test]
fn pkix_client_is_available() {
    assert!(TlsConfig::pkix_client().is_ok());
}

#[test]
fn server_names_are_dns_names_or_addresses() {
    assert!(server_name("mx.example.org").is_ok());
    assert!(server_name("192.0.2.1").is_ok());
    assert_eq!(
        reason(server_name("not a name")),
        "invalid server name `not a name`: invalid dns name"
    );
}

/// Runs a handshake in memory; the certificates the client was shown, where it succeeds.
fn handshake(
    client: Arc<ClientConfig>,
    server: Arc<ServerConfig>,
    name: &str,
) -> Option<Vec<Vec<u8>>> {
    let mut client = ClientConnection::new(client, server_name(name).unwrap()).unwrap();
    let mut server = ServerConnection::new(server).unwrap();
    while client.is_handshaking() || server.is_handshaking() {
        let mut wire = Vec::new();
        while client.wants_write() {
            client.write_tls(&mut wire).unwrap();
        }
        let mut sent = wire.as_slice();
        while !sent.is_empty() {
            server.read_tls(&mut sent).unwrap();
            server.process_new_packets().ok()?;
        }
        let mut wire = Vec::new();
        while server.wants_write() {
            server.write_tls(&mut wire).unwrap();
        }
        let mut sent = wire.as_slice();
        while !sent.is_empty() {
            client.read_tls(&mut sent).unwrap();
            client.process_new_packets().ok()?;
        }
    }
    let shown = client.peer_certificates()?;
    Some(shown.iter().map(|c| c.to_vec()).collect())
}

#[test]
fn configured_ends_shake_hands_only_where_trusted() {
    let ck = rcgen::generate_simple_self_signed(vec!["localhost".to_string()]).unwrap();
    let (cert, key) = (ck.cert.pem(), ck.key_pair.serialize_pem());
    let (stranger, _) = self_signed();
    let server = TlsConfig::server_from_pem(&cert, &key).unwrap();
    let trusting = TlsConfig::client_trusting_pem(&cert).unwrap();
    assert_eq!(
        handshake(trusting.clone(), server.clone(), "localhost"),
        Some(vec![ck.cert.der().to_vec()])
    );
    assert_eq!(handshake(trusting, server.clone(), "mx.example.org"), None);
    let other = TlsConfig::client_trusting_pem(&stranger).unwrap();
    assert_eq!(handshake(other, server.clone(), "localhost"), None);
    let both = TlsConfig::client_trusting_pem(&(stranger + &cert)).unwrap();
    assert!(handshake(both, server.clone(), "localhost").is_some());
    let nobody = TlsConfig::client_trusting_pem("").unwrap();
    assert_eq!(handshake(nobody, server.clone(), "localhost"), None);
    let pkix = TlsConfig::pkix_client().unwrap();
    assert_eq!(handshake(pkix, server, "localhost"), None);
}
