use std::sync::Arc;

use appwatch::authority::{ca_spec, leaf_spec, Authority, ExtendedUsage, KeyUsage, LocalCertificateAuthority};
use appwatch::proxy::{default_proxy_address, HttpProxy};
use rustls::pki_types::{CertificateDer, PrivateKeyDer, PrivatePkcs8KeyDer, ServerName};
use rustls::{ClientConfig, RootCertStore, ServerConfig};
use tokio_rustls::{TlsAcceptor, TlsConnector};

#[test]
fn tls_inspection_exports_only_the_public_ca_certificate() {
    let (sender, _events) = tokio::sync::mpsc::unbounded_channel();
    let proxy = HttpProxy::localhost(sender).enable_tls_inspection().unwrap();
    let certificate = proxy.ca_certificate_der().unwrap();
    let key = proxy.ca_private_key_der().unwrap();
    assert!(!certificate.is_empty());
    assert_ne!(certificate, key);
}

#[test]
fn proxy_builder_keeps_its_settings() {
    let (sender, _events) = tokio::sync::mpsc::unbounded_channel();
    let proxy = HttpProxy::localhost(sender).capture_bodies(true);
    assert_eq!(proxy.bind_address, default_proxy_address());
    assert!(proxy.capture_bodies);
    assert!(proxy.ca_certificate_der().is_none());
    assert!(proxy.ca_private_key_der().is_none());
}

#[test]
fn a_saved_key_brings_back_the_same_authority() {
    let first = LocalCertificateAuthority::new(None).unwrap();
    let key = first.material.private_key_der.clone();
    let (sender, _events) = tokio::sync::mpsc::unbounded_channel();
    let proxy = HttpProxy::localhost(sender).enable_tls_inspection_with_private_key(&key).unwrap();
    assert_eq!(proxy.ca_private_key_der(), Some(key));
    assert!(LocalCertificateAuthority::new(Some(b"not a key")).is_err());
}

#[test]
fn certificate_specs_name_their_subject_and_usages() {
    let ca = ca_spec();
    assert_eq!(ca.common_name, "AppWatch Local CA");
    assert!(ca.subject_alt_names.is_empty());
    assert_eq!(ca.authority, Authority::UnconstrainedCa);
    assert_eq!(ca.key_usages, vec![KeyUsage::DigitalSignature, KeyUsage::KeyCertSign, KeyUsage::CrlSign]);
    let leaf = leaf_spec("example.test");
    assert_eq!(leaf.common_name, "example.test");
    assert_eq!(leaf.subject_alt_names, vec!["example.test".to_string()]);
    assert_eq!(leaf.authority, Authority::NotCa);
    assert_eq!(leaf.key_usages, vec![KeyUsage::DigitalSignature]);
    assert_eq!(leaf.extended_key_usages, vec![ExtendedUsage::ServerAuth]);
}

#[test]
fn generated_leaf_is_trusted_by_the_public_ca() {
    let first = LocalCertificateAuthority::new(None).unwrap();
    let trusted_certificate = first.material.certificate_der.clone();
    let private_key = first.material.private_key_der.clone();
    let authority = LocalCertificateAuthority::new(Some(&private_key)).unwrap();
    let mut roots = RootCertStore::empty();
    roots.add(CertificateDer::from(trusted_certificate)).unwrap();
    let connector = TlsConnector::from(Arc::new(
        ClientConfig::builder().with_root_certificates(roots).with_no_client_auth(),
    ));
    let leaf = authority.leaf_for("example.test").unwrap();
    let server_config = ServerConfig::builder()
        .with_no_client_auth()
        .with_single_cert(
            vec![CertificateDer::from(leaf.certificate_der)],
            PrivateKeyDer::Pkcs8(PrivatePkcs8KeyDer::from(leaf.private_key_der)),
        )
        .unwrap();
    let acceptor = TlsAcceptor::from(Arc::new(server_config));
    let runtime = tokio::runtime::Builder::new_current_thread().enable_all().build().unwrap();
    runtime.block_on(async move {
        let (client, server) = tokio::io::duplex(4096);
        let server_side = tokio::spawn(async move { acceptor.accept(server).await });
        let client_side = tokio::spawn(async move {
            connector.connect(ServerName::try_from("example.test").unwrap(), client).await
        });
        let server_result = server_side.await.unwrap();
        let client_result = client_side.await.unwrap();
        assert!(
            client_result.is_ok() && server_result.is_ok(),
            "client: {:?}, server: {:?}",
            client_result.as_ref().err(),
            server_result.as_ref().err()
        );
    });
}
