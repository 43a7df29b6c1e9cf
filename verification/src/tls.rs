//! TLS client configuration of the trojan outbound.

use crate::config::TrojanOutboundSettings;
use std::sync::Arc;
use tokio_rustls::rustls::ClientConfig;
use tokio_rustls::rustls::OwnedTrustAnchor;
use tokio_rustls::rustls::RootCertStore;
use vstd::prelude::*;

verus! {

/// `rustls::ClientConfig`, as a type whose values are carried around
/// without being looked into.
#[verifier::external_type_specification]
#[verifier::external_body]
pub struct ExClientConfig(ClientConfig);

/// Builds the client configuration a trojan outbound dials with: rustls'
/// safe defaults, the `webpki_roots` trust anchors as root store, no client
/// certificate. Nothing is claimed of the value; it is only carried to the
/// dialer.
#[verifier::external_body]
pub fn make_config(config: &TrojanOutboundSettings) -> Arc<ClientConfig> {
    let mut root_cert_store = RootCertStore::empty();
    root_cert_store.add_server_trust_anchors(webpki_roots::TLS_SERVER_ROOTS.0.iter().map(|ta| {
        OwnedTrustAnchor::from_subject_spki_name_constraints(ta.subject, ta.spki, ta.name_constraints)
    }));
    let tls_config = ClientConfig::builder()
        .with_safe_defaults()
        .with_root_certificates(root_cert_store)
        .with_no_client_auth();
    Arc::new(tls_config)
}

} // verus!
