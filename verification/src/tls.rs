//! SNI certificate resolver: loads one certified identity from PEM key
//! material and serves it, by exact domain match, to every TLS handshake
//! whose requested name is a served domain.

use vstd::prelude::*;
use crate::host::str_eq;

verus! {

/// Declares `std::io::Error`, the error type `rustls_pemfile` reports
/// parse failures with.
#[verifier::external_type_specification]
#[verifier::external_body]
pub struct ExIoError(std::io::Error);

/// The DER contents of the CERTIFICATE sections of a PEM document, in
/// order, or nothing when the document is malformed.
pub uninterp spec fn pem_certs_of(data: Seq<u8>) -> Option<Seq<Seq<u8>>>;

/// The DER secret of the first private-key section of a PEM document
/// (`Some(None)` when the document is well-formed but holds no key), or
/// nothing when the document is malformed.
pub uninterp spec fn pem_key_of(data: Seq<u8>) -> Option<Option<Seq<u8>>>;

/// Relies on rustls_pemfile::certs: reading from a byte slice, it yields
/// the DER contents of every CERTIFICATE section of the PEM input, in
/// order, or an error for a malformed section; the outcome is a function
/// of the bytes alone.
#[verifier::external_body]
fn pem_certs_raw(data: &[u8]) -> (r: Result<Vec<Vec<u8>>, std::io::Error>)
    ensures
        match r {
            Ok(chain) => pem_certs_of(data@) == Some(chain.deep_view()),
            Err(_) => pem_certs_of(data@) is None,
        },
{
    let mut rd: &[u8] = data;
    rustls_pemfile::certs(&mut rd)
        .map(|item| item.map(|cert| cert.as_ref().to_vec()))
        .collect()
}

/// Relies on rustls_pemfile::private_key: reading from a byte slice, it
/// returns the DER secret of the first private-key section (PKCS#1, PKCS#8
/// or SEC1), `None` when the input holds no key, or an error for a
/// malformed section; the outcome is a function of the bytes alone.
#[verifier::external_body]
fn pem_key_raw(data: &[u8]) -> (r: Result<Option<Vec<u8>>, std::io::Error>)
    ensures
        match r {
            Ok(Some(key)) => pem_key_of(data@) == Some(Some(key@)),
            Ok(None) => pem_key_of(data@) == Some(None::<Seq<u8>>),
            Err(_) => pem_key_of(data@) is None,
        },
{
    let mut rd: &[u8] = data;
    match rustls_pemfile::private_key(&mut rd) {
        Ok(Some(key)) => Ok(Some(key.secret_der().to_vec())),
        Ok(None) => Ok(None),
        Err(e) => Err(e),
    }
}

/// Why loading an identity from PEM key material failed; every case is
/// startup-fatal.
#[derive(Debug, Clone, Copy, PartialEq, Eq, Structural)]
pub enum CertError {
    /// The certificate document is malformed.
    CertPem,
    /// The private-key document is malformed.
    KeyPem,
    /// The private-key document holds no key.
    NoKey,
}

/// Parse a PEM certificate document into its DER certificate chain.
pub fn load_certs(data: &[u8]) -> (r: Result<Vec<Vec<u8>>, CertError>)
    ensures
        match r {
            Ok(chain) => pem_certs_of(data@) == Some(chain.deep_view()),
            Err(e) => pem_certs_of(data@) is None && e == CertError::CertPem,
        },
{
    match pem_certs_raw(data) {
        Ok(chain) => Ok(chain),
        Err(_) => Err(CertError::CertPem),
    }
}

/// Parse a PEM private-key document into the DER secret of its first key;
/// a well-formed document without a key is an error of its own.
pub fn load_keys(data: &[u8]) -> (r: Result<Vec<u8>, CertError>)
    ensures
        match r {
            Ok(key) => pem_key_of(data@) == Some(Some(key@)),
            Err(e) => match e {
                CertError::KeyPem => pem_key_of(data@) is None,
                CertError::NoKey => pem_key_of(data@) == Some(None::<Seq<u8>>),
                CertError::CertPem => false,
            },
        },
{
    match pem_key_raw(data) {
        Ok(Some(key)) => Ok(key),
        Ok(None) => Err(CertError::NoKey),
        Err(_) => Err(CertError::KeyPem),
    }
}

/// The one TLS identity a process presents: a DER certificate chain and
/// the DER secret of its private key, shared by reference across every
/// served domain.
#[derive(Debug)]
pub struct CertifiedIdentity {
    pub certificate_chain: Vec<Vec<u8>>,
    pub private_key: Vec<u8>,
}

impl CertifiedIdentity {
    /// Load the identity from PEM key material: the certificate chain
    /// document and the private-key document. Succeeds exactly when both
    /// documents are well formed and the latter holds a key.
    pub fn from_pem(cert_pem: &[u8], key_pem: &[u8]) -> (r: Result<CertifiedIdentity, CertError>)
        ensures
            match r {
                Ok(id) => pem_certs_of(cert_pem@) == Some(id.certificate_chain.deep_view())
                    && pem_key_of(key_pem@) == Some(Some(id.private_key@)),
                Err(e) => match e {
                    CertError::CertPem => pem_certs_of(cert_pem@) is None,
                    CertError::KeyPem => pem_certs_of(cert_pem@) is Some && pem_key_of(
                        key_pem@,
                    ) is None,
                    CertError::NoKey => pem_certs_of(cert_pem@) is Some && pem_key_of(key_pem@)
                        == Some(None::<Seq<u8>>),
                },
            },
    {
        let certificate_chain = match load_certs(cert_pem) {
            Ok(chain) => chain,
            Err(e) => {
                return Err(e);
            },
        };
        let private_key = match load_keys(key_pem) {
            Ok(key) => key,
            Err(e) => {
                return Err(e);
            },
        };
        Ok(CertifiedIdentity { certificate_chain, private_key })
    }
}

/// The domain `domain` occurs in the served-domain list.
pub open spec fn spec_contains_domain(domains: Seq<String>, domain: Seq<char>) -> bool {
    exists|i: int| 0 <= i < domains.len() && domains[i]@ == domain
}

/// The frozen table consulted during every TLS handshake: a list of served
/// domains, each mapped to the one shared identity.
#[derive(Debug)]
pub struct SniResolver {
    pub domains: Vec<String>,
    pub identity: CertifiedIdentity,
}

impl SniResolver {
    /// The resolver serves `domain`.
    pub open spec fn serves(&self, domain: Seq<char>) -> bool {
        spec_contains_domain(self.domains@, domain)
    }

    /// What a resolution returns: the shared identity for a served domain,
    /// nothing otherwise.
    pub open spec fn spec_resolve(&self, domain: Seq<char>) -> Option<CertifiedIdentity> {
        if self.serves(domain) {
            Some(self.identity)
        } else {
            None
        }
    }

    /// Populate the table once at startup: every served domain is
    /// registered verbatim against the one shared identity.
    pub fn build(domains: Vec<String>, identity: CertifiedIdentity) -> (r: SniResolver)
        ensures
            r.domains == domains,
            r.identity == identity,
    {
        SniResolver { domains, identity }
    }

    /// Exact-match lookup for the TLS handshake: a reference to the shared
    /// identity when the requested domain is served, nothing otherwise.
    /// Pure and synchronous; a `None` aborts only that handshake.
    pub fn resolve(&self, domain: &str) -> (r: Option<&CertifiedIdentity>)
        ensures
            match r {
                Some(c) => self.spec_resolve(domain@) == Some(*c),
                None => self.spec_resolve(domain@) is None,
            },
    {
        let mut i: usize = 0;
        while i < self.domains.len()
            invariant
                0 <= i <= self.domains@.len(),
                forall|j: int| 0 <= j < i ==> self.domains@[j]@ != domain@,
            decreases self.domains@.len() - i,
        {
            if str_eq(self.domains[i].as_str(), domain) {
                return Some(&self.identity);
            }
            i += 1;
        }
        None
    }
}

/// Identity sharing: any two served domains resolve to the very same
/// identity, never to distinct copies.
pub proof fn lemma_resolver_shares_identity(r: SniResolver, d1: Seq<char>, d2: Seq<char>)
    requires
        r.serves(d1),
        r.serves(d2),
    ensures
        r.spec_resolve(d1) == r.spec_resolve(d2),
        r.spec_resolve(d1) == Some(r.identity),
{
}

/// An unregistered domain resolves to nothing; resolution is a pure
/// function of the frozen table and the requested domain, so the answer
/// does not depend on call order or concurrent callers.
pub proof fn lemma_resolver_unregistered(r: SniResolver, d: Seq<char>)
    requires
        !r.serves(d),
    ensures
        r.spec_resolve(d) is None,
{
}

} // verus!
