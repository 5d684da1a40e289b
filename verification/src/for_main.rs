//! What the program sets up before it connects: the root certificates and
//! server name for the TLS client, and the packet filter rule that hands the
//! connection's outgoing packets to the netfilter queue.
use vstd::prelude::*;
use rustls::RootCertStore;
use rustls::pki_types::{InvalidDnsNameError, ServerName};

verus! {

#[verifier::external_type_specification]
#[verifier::external_body]
pub struct ExRootCertStore(rustls::RootCertStore);

#[verifier::external_type_specification]
#[verifier::external_body]
pub struct ExRustlsError(rustls::Error);

#[verifier::external_type_specification]
#[verifier::external_body]
pub struct ExServerName<'a>(rustls::pki_types::ServerName<'a>);

#[verifier::external_type_specification]
#[verifier::external_body]
pub struct ExInvalidDnsNameError(rustls::pki_types::InvalidDnsNameError);

/// A trust anchor as plain bytes: the DER of its subject, of its subject
/// public key info, and of its name constraints when it has any.
pub type AnchorBytes = (Seq<u8>, Seq<u8>, Option<Seq<u8>>);

/// The trust anchors that a root certificate store holds, in order.
pub uninterp spec fn root_anchors(store: RootCertStore) -> Seq<(Seq<u8>, Seq<u8>, Option<Seq<u8>>)>;

/// The trust anchor that `RootCertStore::add` takes from a DER certificate
/// (through webpki's `anchor_from_trusted_cert`), or `None` when it rejects
/// the certificate.
pub uninterp spec fn anchor_of_der(der: Seq<u8>) -> Option<(Seq<u8>, Seq<u8>, Option<Seq<u8>>)>;

/// Whether `ServerName::try_from` accepts a string: as a DNS name, or else
/// as an IP address.
pub uninterp spec fn server_name_accepted(name: Seq<char>) -> bool;

/// The owned server name that `ServerName::try_from` followed by `to_owned`
/// makes of an accepted string.
pub uninterp spec fn server_name_for(name: Seq<char>) -> ServerName<'static>;

/// Calls `rustls::RootCertStore::empty`. Claimed: the store holds no anchor.
#[verifier::external_body]
fn empty_root_store() -> (r: RootCertStore)
    ensures
        root_anchors(r) == Seq::<AnchorBytes>::empty(),
{
    RootCertStore::empty()
}

/// Calls `rustls::RootCertStore::add` with the certificate whose DER is
/// `der`. Claimed, as its source shows: when webpki takes an anchor from
/// the certificate, the anchor is appended to the store and the result is
/// `Ok`; otherwise the result is an error and the store is unchanged. Which
/// error is left unsaid.
#[verifier::external_body]
fn add_root(store: &mut RootCertStore, der: &[u8]) -> (r: Result<(), rustls::Error>)
    ensures
        r is Ok <==> anchor_of_der(der@) is Some,
        r is Ok ==> root_anchors(*final(store)) == root_anchors(*old(store)).push(
            anchor_of_der(der@)->0,
        ),
        r is Err ==> root_anchors(*final(store)) == root_anchors(*old(store)),
{
    store.add(rustls::pki_types::CertificateDer::from(der.to_vec()))
}

/// Calls `ServerName::try_from` on `name` and, on success, `to_owned` on the
/// result. Claimed: it succeeds exactly when `server_name_accepted` holds,
/// and the server name is then `server_name_for(name)`, a function of the
/// string alone.
#[verifier::external_body]
fn server_name_of(name: &str) -> (r: Result<ServerName<'static>, InvalidDnsNameError>)
    ensures
        r is Ok <==> server_name_accepted(name@),
        r matches Ok(n) ==> n == server_name_for(name@),
{
    match ServerName::try_from(name) {
        Ok(n) => Ok(n.to_owned()),
        Err(e) => Err(e),
    }
}

/// The anchors that a list of DER certificates gives, in order.
pub open spec fn anchors_of(certs: Seq<Vec<u8>>) -> Seq<AnchorBytes> {
    Seq::new(certs.len(), |i: int| anchor_of_der(certs[i]@)->0)
}

/// Whether webpki takes an anchor from every certificate of the list.
pub open spec fn all_anchors(certs: Seq<Vec<u8>>) -> bool {
    forall|i: int| 0 <= i < certs.len() ==> (#[trigger] anchor_of_der(certs[i]@)) is Some
}

/// Puts the DER certificates into a new root store in their order, stopping
/// at the first one that is rejected, whose error is the result.
pub fn root_store_from(certs: &Vec<Vec<u8>>) -> (r: Result<RootCertStore, rustls::Error>)
    ensures
        r is Ok <==> all_anchors(certs@),
        r matches Ok(store) ==> root_anchors(store) == anchors_of(certs@),
{
    let mut store = empty_root_store();
    let mut i: usize = 0;
    while i < certs.len()
        invariant
            i <= certs@.len(),
            forall|j: int| 0 <= j < i ==> (#[trigger] anchor_of_der(certs@[j]@)) is Some,
            root_anchors(store) == anchors_of(certs@.subrange(0, i as int)),
        decreases certs@.len() - i,
    {
        match add_root(&mut store, certs[i].as_slice()) {
            Ok(()) => {},
            Err(e) => {
                return Err(e);
            },
        }
        assert(anchors_of(certs@.subrange(0, i + 1)) =~= anchors_of(certs@.subrange(0, i as int)).push(
            anchor_of_der(certs@[i as int]@)->0,
        ));
        i = i + 1;
    }
    assert(certs@.subrange(0, i as int) =~= certs@);
    Ok(store)
}

/// What the TLS client is configured with.
pub struct TlsSetup {
    pub roots: RootCertStore,
    pub server_name: ServerName<'static>,
}

/// Why the TLS client could not be configured.
pub enum SetupError {
    /// A root certificate was rejected.
    Certificate(rustls::Error),
    /// The domain is neither a DNS name nor an IP address.
    ServerName(InvalidDnsNameError),
}

/// The server name that the TLS client sends for `domain`.
pub fn tls_server_name(domain: &str) -> (r: Result<ServerName<'static>, SetupError>)
    ensures
        r is Ok <==> server_name_accepted(domain@),
        r matches Ok(n) ==> n == server_name_for(domain@),
        r is Err ==> r matches Err(SetupError::ServerName(_)),
{
    match server_name_of(domain) {
        Ok(n) => Ok(n),
        Err(e) => Err(SetupError::ServerName(e)),
    }
}

/// The root store of the system's certificates and the server name of
/// `domain`: the certificates are checked first, then the name.
pub fn tls_setup(certs: &Vec<Vec<u8>>, domain: &str) -> (r: Result<TlsSetup, SetupError>)
    ensures
        r matches Err(SetupError::Certificate(_)) <==> !all_anchors(certs@),
        r matches Err(SetupError::ServerName(_)) <==> all_anchors(certs@)
            && !server_name_accepted(domain@),
        r is Ok <==> all_anchors(certs@) && server_name_accepted(domain@),
        r matches Ok(s) ==> root_anchors(s.roots) == anchors_of(certs@),
        r matches Ok(s) ==> s.server_name == server_name_for(domain@),
{
    let roots = match root_store_from(certs) {
        Ok(s) => s,
        Err(e) => return Err(SetupError::Certificate(e)),
    };
    let server_name = match tls_server_name(domain) {
        Ok(n) => n,
        Err(e) => return Err(e),
    };
    Ok(TlsSetup { roots, server_name })
}

/// Port of the HTTPS server the tool connects to.
pub const HTTPS_PORT: u16 = 443;

/// The `iptables` arguments that append, to the OUTPUT chain, a rule sending
/// TCP packets for `ip` on port 443 to netfilter queue 0.
pub fn nfqueue_rule_args(ip: &str) -> (r: Vec<String>)
    ensures
        r@.len() == 12,
        r@[0]@ == "-A"@,
        r@[1]@ == "OUTPUT"@,
        r@[2]@ == "-p"@,
        r@[3]@ == "tcp"@,
        r@[4]@ == "-d"@,
        r@[5]@ == ip@,
        r@[6]@ == "--dport"@,
        r@[7]@ == "443"@,
        r@[8]@ == "-j"@,
        r@[9]@ == "NFQUEUE"@,
        r@[10]@ == "--queue-num"@,
        r@[11]@ == "0"@,
{
    let mut v: Vec<String> = Vec::new();
    v.push(String::from_str("-A"));
    v.push(String::from_str("OUTPUT"));
    v.push(String::from_str("-p"));
    v.push(String::from_str("tcp"));
    v.push(String::from_str("-d"));
    v.push(String::from_str(ip));
    v.push(String::from_str("--dport"));
    v.push(String::from_str("443"));
    v.push(String::from_str("-j"));
    v.push(String::from_str("NFQUEUE"));
    v.push(String::from_str("--queue-num"));
    v.push(String::from_str("0"));
    v
}

} // verus!
