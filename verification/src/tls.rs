//! The TLS provider: turns PEM-encoded certificate-chain and key
//! material into the one reusable acceptor that is applied to every
//! accepted stream. Reading the files is the shell's business; this
//! module parses bytes, picks the first key-shaped entry of the key
//! file, and keeps certificate, key and configuration failures apart.
//! The parsed material is carried as plain DER bytes, so every step of
//! the load is stated over the bytes alone.

use vstd::prelude::*;
use vstd::string::StringExecFns;

verus! {

/// One parsed PEM section as rustls-pemfile returns it.
#[verifier::external_type_specification]
#[verifier::external_body]
pub struct ExPemItem(rustls_pemfile::Item);

/// The stream-upgrading acceptor that tokio-rustls applies per stream.
#[verifier::external_type_specification]
#[verifier::external_body]
pub struct ExTlsAcceptor(tokio_rustls::TlsAcceptor);

/// Why TLS material could not be turned into an acceptor.
#[derive(Debug)]
pub enum TlsError {
    /// The certificate chain could not be read or parsed.
    CertLoad(String),
    /// No usable private key could be read or parsed.
    KeyLoad(String),
    /// The material was read but rejected when the server configuration
    /// was built.
    Config(String),
}

impl TlsError {
    /// The human-readable description of the failure, one line each.
    pub fn message(&self) -> (r: String)
        ensures
            match self {
                TlsError::CertLoad(e) => r@ == "Failed to load certificate: "@ + e@,
                TlsError::KeyLoad(e) => r@ == "Failed to load private key: "@ + e@,
                TlsError::Config(e) => r@ == "TLS configuration error: "@ + e@,
            },
    {
        match self {
            TlsError::CertLoad(e) => {
                let mut s = "Failed to load certificate: ".to_owned();
                s.append(e.as_str());
                s
            },
            TlsError::KeyLoad(e) => {
                let mut s = "Failed to load private key: ".to_owned();
                s.append(e.as_str());
                s
            },
            TlsError::Config(e) => {
                let mut s = "TLS configuration error: ".to_owned();
                s.append(e.as_str());
                s
            },
        }
    }
}

/// The key encodings accepted, tried per entry in this order.
#[derive(Debug, Clone, Copy, PartialEq, Eq, Structural)]
pub enum KeyEncoding {
    Pkcs1,
    Pkcs8,
    Sec1,
}

/// One entry of the key file: a private key as its encoding and secret
/// DER bytes, or some other PEM section.
pub enum PemEntry {
    Key(KeyEncoding, Vec<u8>),
    Other(rustls_pemfile::Item),
}

/// The mathematical image of one parsed entry.
pub enum PemScan {
    Key(KeyEncoding, Seq<u8>),
    Other,
    Bad,
}

/// The image of one parse result.
pub open spec fn entry_model(e: Result<PemEntry, String>) -> PemScan {
    match e {
        Ok(PemEntry::Key(enc, d)) => PemScan::Key(enc, d@),
        Ok(PemEntry::Other(_)) => PemScan::Other,
        Err(_) => PemScan::Bad,
    }
}

/// The images of a whole entry list, in order.
pub open spec fn models_of(s: Seq<Result<PemEntry, String>>) -> Seq<PemScan> {
    s.map_values(|e: Result<PemEntry, String>| entry_model(e))
}

/// The views of a list of byte vectors.
pub open spec fn byte_views(s: Seq<Vec<u8>>) -> Seq<Seq<u8>> {
    s.map_values(|v: Vec<u8>| v@)
}

/// What rustls-pemfile finds in the given key-file bytes, entry by
/// entry: a function of the bytes alone.
pub uninterp spec fn pem_key_entries(pem: Seq<u8>) -> Seq<PemScan>;

/// The certificate chain rustls-pemfile collects from the given bytes
/// (each certificate as its DER bytes), or nothing when some section
/// does not parse: a function of the bytes alone.
pub uninterp spec fn pem_cert_chain(pem: Seq<u8>) -> Option<Seq<Seq<u8>>>;

/// Whether rustls accepts a certificate chain and key as one server
/// identity: a function of the material alone, since the enabled crypto
/// provider is fixed.
pub uninterp spec fn single_cert_ok(certs: Seq<Seq<u8>>, enc: KeyEncoding, key: Seq<u8>) -> bool;

/// Whether rustls-pemfile parses every certificate section of the given
/// bytes.
pub open spec fn pem_certs_good(pem: Seq<u8>) -> bool {
    pem_cert_chain(pem) is Some
}

/// Relies on rustls_pemfile::read_all: yields each PEM section of the
/// input in order, or a parse error in its place. Key-shaped sections
/// (PKCS#1, PKCS#8, SEC1) are carried as their secret DER bytes,
/// everything else kept opaque; every image depends on the bytes alone.
#[verifier::external_body]
fn read_pem_entries(pem: &[u8]) -> (r: Vec<Result<PemEntry, String>>)
    ensures
        models_of(r@) == pem_key_entries(pem@),
{
    rustls_pemfile::read_all(&mut &pem[..]).map(
        |item| match item {
            Ok(rustls_pemfile::Item::Pkcs1Key(k)) => Ok(
                PemEntry::Key(KeyEncoding::Pkcs1, k.secret_pkcs1_der().to_vec()),
            ),
            Ok(rustls_pemfile::Item::Pkcs8Key(k)) => Ok(
                PemEntry::Key(KeyEncoding::Pkcs8, k.secret_pkcs8_der().to_vec()),
            ),
            Ok(rustls_pemfile::Item::Sec1Key(k)) => Ok(
                PemEntry::Key(KeyEncoding::Sec1, k.secret_sec1_der().to_vec()),
            ),
            Ok(other) => Ok(PemEntry::Other(other)),
            Err(e) => Err(e.to_string()),
        },
    ).collect()
}

/// Relies on rustls_pemfile::certs: collects every certificate section
/// as its DER bytes, failing on the first section that does not parse;
/// the collected chain is a function of the bytes alone.
#[verifier::external_body]
fn read_certs(pem: &[u8]) -> (r: Result<Vec<Vec<u8>>, String>)
    ensures
        r is Ok <==> pem_cert_chain(pem@) is Some,
        r is Ok ==> byte_views(r->Ok_0@) == pem_cert_chain(pem@)->Some_0,
{
    rustls_pemfile::certs(&mut &pem[..]).map(
        |c| c.map(|der| der.as_ref().to_vec()).map_err(|e| e.to_string()),
    ).collect()
}

/// Relies on rustls's server configuration builder with a single
/// certificate chain and key (no client certificates): it accepts or
/// rejects the material as a function of the DER bytes alone, since the
/// crate enables exactly the ring crypto provider (which also keeps the
/// builder from panicking). The accepted configuration is wrapped
/// through tokio_rustls::TlsAcceptor::from as the reusable acceptor.
#[verifier::external_body]
fn build_acceptor(certs: Vec<Vec<u8>>, enc: KeyEncoding, key: Vec<u8>) -> (r: Result<
    tokio_rustls::TlsAcceptor,
    String,
>)
    ensures
        r is Ok <==> single_cert_ok(byte_views(certs@), enc, key@),
{
    let cert_ders = certs.into_iter().map(rustls::pki_types::CertificateDer::from).collect();
    let key_der = match enc {
        KeyEncoding::Pkcs1 => rustls::pki_types::PrivateKeyDer::Pkcs1(key.into()),
        KeyEncoding::Pkcs8 => rustls::pki_types::PrivateKeyDer::Pkcs8(key.into()),
        KeyEncoding::Sec1 => rustls::pki_types::PrivateKeyDer::Sec1(key.into()),
    };
    let config = rustls::ServerConfig::builder().with_no_client_auth().with_single_cert(
        cert_ders,
        key_der,
    ).map_err(|e| e.to_string())?;
    Ok(tokio_rustls::TlsAcceptor::from(std::sync::Arc::new(config)))
}

/// How the key file scan comes out: the first key-shaped entry wins; a
/// section that does not parse before any key fails the load; a file
/// with no key at all fails too.
pub enum KeyPick {
    Found(KeyEncoding, Seq<u8>),
    ParseFailed,
    NoKey,
}

/// The scan over the entry images, front to back.
pub open spec fn key_pick(scans: Seq<PemScan>) -> KeyPick
    decreases scans.len(),
{
    if scans.len() == 0 {
        KeyPick::NoKey
    } else {
        match scans.first() {
            PemScan::Bad => KeyPick::ParseFailed,
            PemScan::Key(enc, d) => KeyPick::Found(enc, d),
            PemScan::Other => key_pick(scans.drop_first()),
        }
    }
}

/// Walks the parsed key file in order and takes the first entry that is
/// a private key, in whichever of the accepted encodings; fails as a
/// key-load error when a section is broken before any key, or when no
/// key is found at all.
pub fn select_private_key(entries: Vec<Result<PemEntry, String>>) -> (r: Result<
    (KeyEncoding, Vec<u8>),
    TlsError,
>)
    ensures
        r is Err ==> r->Err_0 is KeyLoad,
        match key_pick(models_of(entries@)) {
            KeyPick::Found(enc, key) => r is Ok && r->Ok_0.0 == enc && r->Ok_0.1@ == key,
            KeyPick::ParseFailed => r is Err,
            KeyPick::NoKey => r is Err,
        },
{
    let ghost orig = models_of(entries@);
    let mut rest = entries;
    while rest.len() > 0
        invariant
            orig == models_of(entries@),
            key_pick(orig) == key_pick(models_of(rest@)),
        decreases rest.len(),
    {
        let ghost pre = models_of(rest@);
        let e = rest.remove(0);
        proof {
            assert(pre.first() == entry_model(e));
            assert(models_of(rest@) =~= pre.drop_first());
        }
        match e {
            Err(msg) => {
                return Err(TlsError::KeyLoad(msg));
            },
            Ok(PemEntry::Key(enc, key)) => {
                return Ok((enc, key));
            },
            Ok(PemEntry::Other(_)) => {},
        }
    }
    proof {
        assert(models_of(rest@).len() == 0);
    }
    Err(TlsError::KeyLoad("No private key found in file".to_owned()))
}

/// The reusable TLS acceptor built from the configured material.
pub struct TlsConfig {
    pub acceptor: tokio_rustls::TlsAcceptor,
}

impl TlsConfig {
    /// Builds the acceptor from PEM-encoded bytes: certificate chain
    /// first, key material second. A certificate that does not parse is
    /// a CertLoad error; a key file with no usable key, or broken
    /// before its first key, is a KeyLoad error; material that rustls
    /// itself rejects is a Config error. An acceptor comes back exactly
    /// when the chain parses, a key is found, and rustls accepts the
    /// pair.
    pub fn from_pem_data(cert_pem: &[u8], key_pem: &[u8]) -> (r: Result<TlsConfig, TlsError>)
        ensures
            (r is Err && r->Err_0 is CertLoad) <==> !pem_certs_good(cert_pem@),
            pem_certs_good(cert_pem@) ==> ((r is Err && r->Err_0 is KeyLoad) <==> !(key_pick(
                pem_key_entries(key_pem@),
            ) is Found)),
            r is Ok <==> (match key_pick(pem_key_entries(key_pem@)) {
                KeyPick::Found(enc, key) => pem_certs_good(cert_pem@) && single_cert_ok(
                    pem_cert_chain(cert_pem@)->Some_0,
                    enc,
                    key,
                ),
                KeyPick::ParseFailed => false,
                KeyPick::NoKey => false,
            }),
            (r is Err && r->Err_0 is Config) ==> pem_certs_good(cert_pem@) && key_pick(
                pem_key_entries(key_pem@),
            ) is Found,
    {
        let certs = match read_certs(cert_pem) {
            Ok(c) => c,
            Err(e) => {
                return Err(TlsError::CertLoad(e));
            },
        };
        let entries = read_pem_entries(key_pem);
        let picked = match select_private_key(entries) {
            Ok(p) => p,
            Err(e) => {
                return Err(e);
            },
        };
        let (encoding, key) = picked;
        let acceptor = match build_acceptor(certs, encoding, key) {
            Ok(a) => a,
            Err(e) => {
                return Err(TlsError::Config(e));
            },
        };
        Ok(TlsConfig { acceptor })
    }
}

} // verus!
