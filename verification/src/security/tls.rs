use vstd::prelude::*;

verus! {

/// The byte strings of a list of byte vectors.
pub open spec fn byte_strings(v: Seq<Vec<u8>>) -> Seq<Seq<u8>> {
    v.map_values(|x: Vec<u8>| x@)
}

/// The DER certificates `rustls_pemfile::certs` finds in PEM text, or its error's text.
pub uninterp spec fn pem_certs(pem: Seq<u8>) -> Result<Seq<Seq<u8>>, Seq<char>>;

/// The RSA keys `rustls_pemfile::rsa_private_keys` finds in PEM text, or its error's text.
pub uninterp spec fn pem_rsa_keys(pem: Seq<u8>) -> Result<Seq<Seq<u8>>, Seq<char>>;

/// The PKCS #8 keys `rustls_pemfile::pkcs8_private_keys` finds in PEM text, or its error's text.
pub uninterp spec fn pem_pkcs8_keys(pem: Seq<u8>) -> Result<Seq<Seq<u8>>, Seq<char>>;

/// The SEC1 EC keys `rustls_pemfile::ec_private_keys` finds in PEM text, or its error's text.
pub uninterp spec fn pem_ec_keys(pem: Seq<u8>) -> Result<Seq<Seq<u8>>, Seq<char>>;

/// `rustls_pemfile::certs` over the bytes. Claims that the result is the named `pem_certs`.
#[verifier::external_body]
fn read_certs(pem: &[u8]) -> (res: Result<Vec<Vec<u8>>, String>)
    ensures
        match res {
            Ok(v) => pem_certs(pem@) == Ok::<Seq<Seq<u8>>, Seq<char>>(byte_strings(v@)),
            Err(e) => pem_certs(pem@) == Err::<Seq<Seq<u8>>, Seq<char>>(e@),
        },
{
    rustls_pemfile::certs(&mut &pem[..]).map_err(|e| e.to_string())
}

/// `rustls_pemfile::rsa_private_keys` over the bytes. Claims that the result is the named
/// `pem_rsa_keys`.
#[verifier::external_body]
fn read_rsa_keys(pem: &[u8]) -> (res: Result<Vec<Vec<u8>>, String>)
    ensures
        match res {
            Ok(v) => pem_rsa_keys(pem@) == Ok::<Seq<Seq<u8>>, Seq<char>>(byte_strings(v@)),
            Err(e) => pem_rsa_keys(pem@) == Err::<Seq<Seq<u8>>, Seq<char>>(e@),
        },
{
    rustls_pemfile::rsa_private_keys(&mut &pem[..]).map_err(|e| e.to_string())
}

/// `rustls_pemfile::pkcs8_private_keys` over the bytes. Claims that the result is the named
/// `pem_pkcs8_keys`.
#[verifier::external_body]
fn read_pkcs8_keys(pem: &[u8]) -> (res: Result<Vec<Vec<u8>>, String>)
    ensures
        match res {
            Ok(v) => pem_pkcs8_keys(pem@) == Ok::<Seq<Seq<u8>>, Seq<char>>(byte_strings(v@)),
            Err(e) => pem_pkcs8_keys(pem@) == Err::<Seq<Seq<u8>>, Seq<char>>(e@),
        },
{
    rustls_pemfile::pkcs8_private_keys(&mut &pem[..]).map_err(|e| e.to_string())
}

/// `rustls_pemfile::ec_private_keys` over the bytes. Claims that the result is the named
/// `pem_ec_keys`.
#[verifier::external_body]
fn read_ec_keys(pem: &[u8]) -> (res: Result<Vec<Vec<u8>>, String>)
    ensures
        match res {
            Ok(v) => pem_ec_keys(pem@) == Ok::<Seq<Seq<u8>>, Seq<char>>(byte_strings(v@)),
            Err(e) => pem_ec_keys(pem@) == Err::<Seq<Seq<u8>>, Seq<char>>(e@),
        },
{
    rustls_pemfile::ec_private_keys(&mut &pem[..]).map_err(|e| e.to_string())
}

/// The first key of a list that parsed and is not empty.
pub open spec fn first_found(r: Result<Seq<Seq<u8>>, Seq<char>>) -> Option<Seq<u8>> {
    match r {
        Ok(keys) => if keys.len() > 0 { Some(keys[0]) } else { None },
        Err(_) => None,
    }
}

/// The private key of a key file: the first RSA key, else the first PKCS #8 key, else the first
/// EC key; the EC reading's error, or `No private key found`, when there is none.
pub open spec fn spec_private_key(pem: Seq<u8>) -> Result<Seq<u8>, Seq<char>> {
    match first_found(pem_rsa_keys(pem)) {
        Some(k) => Ok(k),
        None => match first_found(pem_pkcs8_keys(pem)) {
            Some(k) => Ok(k),
            None => match pem_ec_keys(pem) {
                Err(e) => Err(e),
                Ok(keys) => if keys.len() > 0 { Ok(keys[0]) } else { Err("No private key found"@) },
            },
        },
    }
}

fn first_key(keys: Result<Vec<Vec<u8>>, String>) -> (res: Option<Vec<u8>>)
    ensures
        match keys {
            Ok(v) => if v@.len() > 0 { res matches Some(k) && k@ == v@[0]@ } else { res is None },
            Err(_) => res is None,
        },
{
    match keys {
        Ok(mut v) => {
            if v.len() > 0 {
                Some(v.swap_remove(0))
            } else {
                None
            }
        },
        Err(_) => None,
    }
}

/// The private key of a key file's PEM text (see `spec_private_key`).
pub fn select_private_key(key_pem: &[u8]) -> (res: Result<Vec<u8>, String>)
    ensures
        match res {
            Ok(k) => spec_private_key(key_pem@) == Ok::<Seq<u8>, Seq<char>>(k@),
            Err(e) => spec_private_key(key_pem@) == Err::<Seq<u8>, Seq<char>>(e@),
        },
{
    if let Some(k) = first_key(read_rsa_keys(key_pem)) {
        return Ok(k);
    }
    if let Some(k) = first_key(read_pkcs8_keys(key_pem)) {
        return Ok(k);
    }
    match read_ec_keys(key_pem) {
        Err(e) => Err(e),
        Ok(mut keys) => {
            if keys.len() > 0 {
                Ok(keys.swap_remove(0))
            } else {
                Err("No private key found".to_owned())
            }
        },
    }
}

/// The certificate chain of a certificate file's PEM text; `Failed to parse certificate` when it
/// does not read.
pub fn load_certificates(cert_pem: &[u8]) -> (res: Result<Vec<Vec<u8>>, String>)
    ensures
        match pem_certs(cert_pem@) {
            Ok(c) => res matches Ok(v) && byte_strings(v@) == c,
            Err(_) => res matches Err(e) && e@ == "Failed to parse certificate"@,
        },
{
    match read_certs(cert_pem) {
        Ok(v) => Ok(v),
        Err(_) => Err("Failed to parse certificate".to_owned()),
    }
}

/// The first RSA key of a key file, for client authentication: its reading's error, or `None`
/// when the file holds no RSA key.
pub fn first_rsa_key(key_pem: &[u8]) -> (res: Result<Option<Vec<u8>>, String>)
    ensures
        match pem_rsa_keys(key_pem@) {
            Err(e) => res matches Err(r) && r@ == e,
            Ok(keys) => res matches Ok(k) && if keys.len() > 0 { k matches Some(first) && first@ == keys[0] } else { k is None },
        },
{
    match read_rsa_keys(key_pem) {
        Err(e) => Err(e),
        Ok(mut keys) => {
            if keys.len() > 0 {
                Ok(Some(keys.swap_remove(0)))
            } else {
                Ok(None)
            }
        },
    }
}

} // verus!
