//! What a server needs to speak TLS, read from PEM files.

use vstd::prelude::*;

verus! {

/// The certificates in the text of a PEM file, in order, or what is wrong with the text.
pub uninterp spec fn pem_certificates(pem: Seq<u8>) -> Result<Seq<Seq<u8>>, Seq<char>>;

/// The label and the bytes of the first private key in the text of a PEM file, where
/// there is one, or what is wrong with the text.
pub uninterp spec fn pem_key(pem: Seq<u8>) -> Result<Option<(Seq<char>, Seq<u8>)>, Seq<char>>;

/// How the bytes of a private key are to be read.
#[derive(Clone, Copy, Debug, PartialEq, Eq, Structural)]
pub enum KeyKind {
    Pkcs1,
    Sec1,
    Pkcs8,
}

impl KeyKind {
    /// The label of such keys in PEM files.
    pub open spec fn label(self) -> Seq<char> {
        match self {
            KeyKind::Pkcs1 => "RSA PRIVATE KEY"@,
            KeyKind::Sec1 => "EC PRIVATE KEY"@,
            KeyKind::Pkcs8 => "PRIVATE KEY"@,
        }
    }
}

/// A private key.
#[derive(Debug, PartialEq, Eq)]
pub struct PrivateKey {
    pub kind: KeyKind,
    pub der: Vec<u8>,
}

/// What a server needs to speak TLS.
#[derive(Debug, PartialEq, Eq)]
pub struct TlsMaterial {
    /// The certificates, from that of the server on.
    pub certificates: Vec<Vec<u8>>,
    pub key: PrivateKey,
    /// The protocols that are offered, the best first.
    pub protocols: Vec<Vec<u8>>,
}

/// Why PEM files are of no use.
#[derive(Debug, PartialEq, Eq)]
pub enum TlsError {
    /// The text is not what a PEM file holds.
    Malformed(String),
    /// There is no private key in the text.
    NoPrivateKey,
}

/// The bytes of each item of a list.
pub open spec fn all_bytes(list: Seq<Vec<u8>>) -> Seq<Seq<u8>> {
    Seq::new(list.len(), |i: int| list[i]@)
}

/// `rustls_pemfile::certs`, read to its end or to the first error. What it finds in given
/// bytes, and the text of the error, are only named here.
#[verifier::external_body]
pub(crate) fn read_certificates(pem: &Vec<u8>) -> (r: Result<Vec<Vec<u8>>, String>)
    ensures
        match r {
            Ok(list) => pem_certificates(pem@) == Ok::<Seq<Seq<u8>>, Seq<char>>(all_bytes(list@)),
            Err(e) => pem_certificates(pem@) == Err::<Seq<Seq<u8>>, Seq<char>>(e@),
        },
{
    rustls_pemfile::certs(&mut pem.as_slice())
        .map(|found| found.map(|der| der.to_vec()).map_err(|e| e.to_string()))
        .collect()
}

/// `rustls_pemfile::private_key`. What it finds in given bytes, and the text of the error,
/// are only named here. The keys that it gives are of the three kinds that are told apart.
#[verifier::external_body]
pub(crate) fn read_key(pem: &Vec<u8>) -> (r: Result<Option<PrivateKey>, String>)
    ensures
        match r {
            Ok(Some(key)) => pem_key(pem@) == Ok::<Option<(Seq<char>, Seq<u8>)>, Seq<char>>(
                Some((key.kind.label(), key.der@)),
            ),
            Ok(None) => pem_key(pem@) == Ok::<Option<(Seq<char>, Seq<u8>)>, Seq<char>>(None),
            Err(e) => pem_key(pem@) == Err::<Option<(Seq<char>, Seq<u8>)>, Seq<char>>(e@),
        },
{
    let found = rustls_pemfile::private_key(&mut pem.as_slice()).map_err(|e| e.to_string())?;
    Ok(found.and_then(|key| {
        let kind = match &key {
            tokio_rustls::rustls::pki_types::PrivateKeyDer::Pkcs1(_) => KeyKind::Pkcs1,
            tokio_rustls::rustls::pki_types::PrivateKeyDer::Sec1(_) => KeyKind::Sec1,
            tokio_rustls::rustls::pki_types::PrivateKeyDer::Pkcs8(_) => KeyKind::Pkcs8,
            _ => return None,
        };
        Some(PrivateKey { kind, der: key.secret_der().to_vec() })
    }))
}

/// Makes certificates of what was found in a file.
pub fn certificates_found(found: Result<Vec<Vec<u8>>, String>) -> (r: Result<
    Vec<Vec<u8>>,
    TlsError,
>)
    ensures
        match found {
            Ok(list) => r == Ok::<Vec<Vec<u8>>, TlsError>(list),
            Err(e) => r == Err::<Vec<Vec<u8>>, TlsError>(TlsError::Malformed(e)),
        },
{
    match found {
        Ok(list) => Ok(list),
        Err(e) => Err(TlsError::Malformed(e)),
    }
}

/// Makes a key of what was found in a file, which must hold one.
pub fn key_found(found: Result<Option<PrivateKey>, String>) -> (r: Result<PrivateKey, TlsError>)
    ensures
        match found {
            Ok(Some(key)) => r == Ok::<PrivateKey, TlsError>(key),
            Ok(None) => r == Err::<PrivateKey, TlsError>(TlsError::NoPrivateKey),
            Err(e) => r == Err::<PrivateKey, TlsError>(TlsError::Malformed(e)),
        },
{
    match found {
        Ok(Some(key)) => Ok(key),
        Ok(None) => Err(TlsError::NoPrivateKey),
        Err(e) => Err(TlsError::Malformed(e)),
    }
}

/// The certificates in the text of a PEM file.
pub fn certificates_from_pem(pem: &Vec<u8>) -> (r: Result<Vec<Vec<u8>>, TlsError>)
    ensures
        match pem_certificates(pem@) {
            Ok(list) => r matches Ok(v) && all_bytes(v@) == list,
            Err(e) => r matches Err(TlsError::Malformed(m)) && m@ == e,
        },
{
    certificates_found(read_certificates(pem))
}

/// The first private key in the text of a PEM file.
pub fn key_from_pem(pem: &Vec<u8>) -> (r: Result<PrivateKey, TlsError>)
    ensures
        match pem_key(pem@) {
            Ok(Some((label, der))) => r matches Ok(key) && key.kind.label() == label && key.der@
                == der,
            Ok(None) => r == Err::<PrivateKey, TlsError>(TlsError::NoPrivateKey),
            Err(e) => r matches Err(TlsError::Malformed(m)) && m@ == e,
        },
{
    key_found(read_key(pem))
}

/// The names of the protocols that are offered: HTTP/2, and then HTTP/1.1.
pub open spec fn offered() -> Seq<Seq<u8>> {
    seq![seq![0x68u8, 0x32], seq![0x68u8, 0x74, 0x74, 0x70, 0x2f, 0x31, 0x2e, 0x31]]
}

/// What a server needs to speak TLS: the certificates of one file and the key of
/// another. Where both files are of no use, the first is told of.
pub fn material_from_pem(certificates: &Vec<u8>, key: &Vec<u8>) -> (r: Result<
    TlsMaterial,
    TlsError,
>)
    ensures
        match (pem_certificates(certificates@), pem_key(key@)) {
            (Ok(list), Ok(Some((label, der)))) => {
                &&& r matches Ok(m)
                &&& all_bytes(m.certificates@) == list
                &&& m.key.kind.label() == label
                &&& m.key.der@ == der
                &&& all_bytes(m.protocols@) == offered()
            },
            (Ok(_), Ok(None)) => r == Err::<TlsMaterial, TlsError>(TlsError::NoPrivateKey),
            (Ok(_), Err(e)) => r matches Err(TlsError::Malformed(m)) && m@ == e,
            (Err(e), _) => r matches Err(TlsError::Malformed(m)) && m@ == e,
        },
{
    let certificates: Vec<Vec<u8>> = match certificates_from_pem(certificates) {
        Ok(list) => list,
        Err(e) => {
            return Err(e);
        },
    };
    let key: PrivateKey = match key_from_pem(key) {
        Ok(key) => key,
        Err(e) => {
            return Err(e);
        },
    };
    let protocols: Vec<Vec<u8>> = vec![
        vec![0x68u8, 0x32],
        vec![0x68u8, 0x74, 0x74, 0x70, 0x2f, 0x31, 0x2e, 0x31],
    ];
    assert(protocols@[0]@ =~= seq![0x68u8, 0x32]);
    assert(protocols@[1]@ =~= seq![0x68u8, 0x74, 0x74, 0x70, 0x2f, 0x31, 0x2e, 0x31]);
    assert(all_bytes(protocols@) =~= offered());
    Ok(TlsMaterial { certificates, key, protocols })
}

impl TlsError {
    /// What is wrong, as contracts speak of it.
    pub open spec fn text(self) -> Seq<char> {
        match self {
            TlsError::Malformed(m) => m@,
            TlsError::NoPrivateKey => "no private key found in PEM"@,
        }
    }

    /// What is wrong.
    pub fn message(&self) -> (r: String)
        ensures
            r@ == self.text(),
    {
        match self {
            TlsError::Malformed(m) => m.clone(),
            TlsError::NoPrivateKey => "no private key found in PEM".to_owned(),
        }
    }
}

/// HTTP/2 is offered before HTTP/1.1, and no other protocol is.
pub proof fn law_protocols_are_offered_in_order()
    ensures
        offered().len() == 2,
        offered()[0].len() == "h2"@.len(),
        forall|i: int|
            0 <= i < "h2"@.len() ==> (#[trigger] offered()[0][i]) as int == "h2"@[i] as int,
        offered()[1].len() == "http/1.1"@.len(),
        forall|i: int|
            0 <= i < "http/1.1"@.len() ==> (#[trigger] offered()[1][i]) as int
                == "http/1.1"@[i] as int,
{
    reveal_strlit("h2");
    reveal_strlit("http/1.1");
}

/// Kinds of keys are told apart by their labels, and errors say what is wrong.
pub proof fn law_keys_are_told_by_their_labels(k: KeyKind, e: TlsError)
    ensures
        k == KeyKind::Pkcs1 <==> k.label() == "RSA PRIVATE KEY"@,
        k == KeyKind::Sec1 <==> k.label() == "EC PRIVATE KEY"@,
        k == KeyKind::Pkcs8 <==> k.label() == "PRIVATE KEY"@,
        e is NoPrivateKey ==> e.text() == "no private key found in PEM"@,
        e matches TlsError::Malformed(m) ==> e.text() == m@,
{
    reveal_strlit("RSA PRIVATE KEY");
    reveal_strlit("EC PRIVATE KEY");
    reveal_strlit("PRIVATE KEY");
    assert("RSA PRIVATE KEY"@.len() == 15 && "EC PRIVATE KEY"@.len() == 14 && "PRIVATE KEY"@.len()
        == 11);
}

} // verus!
