//! The hybrid encryption envelope: a fresh AES-256-GCM key seals the
//! payload, the key is wrapped with RSA PKCS#1 v1.5 under the configured
//! public key, and the three parts travel base64-encoded in a small JSON
//! object.  The outside ciphers stand behind trusted wrappers; the
//! envelope assembly and the round-trip law are verified.

use vstd::prelude::*;
use crate::errors::CryptoError;
use aes_gcm::aead::Aead;
use aes_gcm::KeyInit;
use base64::Engine;
use rsa::pkcs8::{DecodePrivateKey, DecodePublicKey};

verus! {

/// What AES-256-GCM produces for a 32-byte key, a 12-byte nonce and a
/// plaintext: the ciphertext with its authentication tag appended.
pub uninterp spec fn aes_seal(key: Seq<u8>, nonce: Seq<u8>, plaintext: Seq<u8>) -> Seq<u8>;

/// The base64 text (standard alphabet, padded) of a byte sequence.
pub uninterp spec fn b64(data: Seq<u8>) -> Seq<char>;

/// What RSA PKCS#1 v1.5 decryption under the private key given as
/// PKCS#8 PEM text yields for a ciphertext, where it succeeds.
pub uninterp spec fn rsa_unwrap(private_pem: Seq<char>, ciphertext: Seq<u8>) -> Option<Seq<u8>>;

/// Whether the two PEM texts form an RSA key pair: the second is the
/// public key belonging to the first.
pub uninterp spec fn rsa_keypair(private_pem: Seq<char>, public_pem: Seq<char>) -> bool;

/// The characters base64 text is drawn from.
pub open spec fn is_b64_char(c: char) -> bool {
    ('A' <= c && c <= 'Z') || ('a' <= c && c <= 'z') || ('0' <= c && c <= '9') || c == '+' || c
        == '/' || c == '='
}

/// Relies on `rand::rngs::OsRng` through `rand::RngCore::fill_bytes`:
/// `n` bytes from the operating system's CSPRNG.  Nothing is assumed of
/// the values.
#[verifier::external_body]
pub(crate) fn random_bytes(n: usize) -> (r: Vec<u8>)
    ensures
        r@.len() == n,
{
    let mut v = vec![0u8; n];
    rand::RngCore::fill_bytes(&mut rand::rngs::OsRng, &mut v);
    v
}

/// Relies on `aes_gcm::Aes256Gcm` (`KeyInit::new_from_slice` and
/// `Aead::encrypt`): sealing is a function of exactly the key, the nonce
/// and the plaintext.
#[verifier::external_body]
fn aes_gcm_encrypt(key: &[u8], nonce: &[u8], plaintext: &[u8]) -> (r: Option<Vec<u8>>)
    requires
        key@.len() == 32,
        nonce@.len() == 12,
    ensures
        r matches Some(ct) ==> ct@ == aes_seal(key@, nonce@, plaintext@),
        r matches Some(ct) ==> ct@.len() == plaintext@.len() + 16,
{
    let cipher = aes_gcm::Aes256Gcm::new_from_slice(key).ok()?;
    cipher.encrypt(aes_gcm::Nonce::from_slice(nonce), plaintext).ok()
}

/// Relies on the same cipher's `Aead::decrypt`: GCM authenticates, so
/// opening succeeds exactly on ciphertexts sealed under the same key and
/// nonce, and recovers the plaintext that was sealed.
#[verifier::external_body]
fn aes_gcm_decrypt(key: &[u8], nonce: &[u8], ciphertext: &[u8]) -> (r: Option<Vec<u8>>)
    requires
        key@.len() == 32,
        nonce@.len() == 12,
    ensures
        r matches Some(p) ==> ciphertext@ == aes_seal(key@, nonce@, p@),
        r is None ==> forall|p: Seq<u8>| ciphertext@ != aes_seal(key@, nonce@, p),
        r matches Some(q) ==> forall|p: Seq<u8>|
            ciphertext@ == aes_seal(key@, nonce@, p) ==> q@ == p,
{
    let cipher = aes_gcm::Aes256Gcm::new_from_slice(key).ok()?;
    cipher.decrypt(aes_gcm::Nonce::from_slice(nonce), ciphertext).ok()
}

/// Relies on `rsa::RsaPublicKey::from_public_key_pem` and
/// `RsaPublicKey::encrypt` with `Pkcs1v15Encrypt` under
/// `rand::thread_rng`: the wrapped bytes decrypt, under any private key
/// this public key belongs to, back to `data`.  The ciphertext itself is
/// randomized, so nothing else is assumed of it.
#[verifier::external_body]
fn rsa_wrap(public_pem: &str, data: &[u8]) -> (r: Option<Vec<u8>>)
    ensures
        r matches Some(ct) ==> forall|sk: Seq<char>|
            rsa_keypair(sk, public_pem@) ==> rsa_unwrap(sk, ct@) == Some(data@),
{
    let key = rsa::RsaPublicKey::from_public_key_pem(public_pem).ok()?;
    key.encrypt(&mut rand::thread_rng(), rsa::Pkcs1v15Encrypt, data).ok()
}

/// Relies on `rsa::RsaPrivateKey::from_pkcs8_pem` and
/// `RsaPrivateKey::decrypt` with `Pkcs1v15Encrypt`: decryption under a
/// fixed key is deterministic, modelled exactly by `rsa_unwrap`.
#[verifier::external_body]
fn rsa_unwrap_bytes(private_pem: &str, ciphertext: &[u8]) -> (r: Option<Vec<u8>>)
    ensures
        r matches Some(p) ==> rsa_unwrap(private_pem@, ciphertext@) == Some(p@),
        r is None ==> rsa_unwrap(private_pem@, ciphertext@) is None,
{
    let key = rsa::RsaPrivateKey::from_pkcs8_pem(private_pem).ok()?;
    key.decrypt(rsa::Pkcs1v15Encrypt, ciphertext).ok()
}

/// Relies on `base64::engine::general_purpose::STANDARD.encode`: the
/// standard-alphabet padded encoding, a function of the bytes alone,
/// four characters for every three bytes, drawn from the base64
/// alphabet.
#[verifier::external_body]
pub fn b64_encode(data: &[u8]) -> (r: String)
    ensures
        r@ == b64(data@),
        r@.len() == 4 * ((data@.len() + 2) / 3),
        forall|i: int| 0 <= i < r@.len() ==> is_b64_char(r@[i]),
{
    base64::engine::general_purpose::STANDARD.encode(data)
}

/// Relies on `STANDARD.decode`, which requires canonical padding: it
/// inverts `STANDARD.encode`.
#[verifier::external_body]
pub fn b64_decode(text: &str) -> (r: Option<Vec<u8>>)
    ensures
        r is None ==> forall|d: Seq<u8>| text@ != b64(d),
        r matches Some(v) ==> forall|d: Seq<u8>| text@ == b64(d) ==> v@ == d,
{
    base64::engine::general_purpose::STANDARD.decode(text).ok()
}

/// The encrypted envelope that replaces a frame body on egress when a
/// public key is configured.
#[derive(Debug)]
pub struct EncryptedEnvelope {
    pub secure_key: String,
    pub iv: String,
    pub secure_payload: String,
}

/// One witness triple for an envelope: the session key, the nonce and
/// the wrapped key behind the three base64 fields.
pub open spec fn envelope_parts(
    secure_key: Seq<char>,
    iv: Seq<char>,
    secure_payload: Seq<char>,
    public_pem: Seq<char>,
    plaintext: Seq<u8>,
    key: Seq<u8>,
    nonce: Seq<u8>,
    wrapped: Seq<u8>,
) -> bool {
    &&& key.len() == 32
    &&& nonce.len() == 12
    &&& (forall|sk: Seq<char>|
        rsa_keypair(sk, public_pem) ==> rsa_unwrap(sk, wrapped) == Some(key))
    &&& secure_key == b64(wrapped)
    &&& iv == b64(nonce)
    &&& secure_payload == b64(aes_seal(key, nonce, plaintext))
}

/// What it means for envelope fields to seal `plaintext` to the public
/// key `public_pem`: some fresh key and nonce sealed the plaintext, and
/// the key travels wrapped so that any paired private key recovers it.
pub open spec fn envelope_seals(
    secure_key: Seq<char>,
    iv: Seq<char>,
    secure_payload: Seq<char>,
    public_pem: Seq<char>,
    plaintext: Seq<u8>,
) -> bool {
    exists|key: Seq<u8>, nonce: Seq<u8>, wrapped: Seq<u8>|
        #[trigger] envelope_parts(
            secure_key,
            iv,
            secure_payload,
            public_pem,
            plaintext,
            key,
            nonce,
            wrapped,
        )
}

/// Seals `plaintext` for the holder of the private key paired with
/// `public_pem`: a fresh 256-bit AES key and 96-bit nonce from the
/// CSPRNG, AES-256-GCM over the plaintext, RSA key wrap, base64 on all
/// three parts.  Failure drops the message; there is no plaintext
/// fallback.
pub fn seal_envelope(plaintext: &[u8], public_pem: &str) -> (r: Result<
    EncryptedEnvelope,
    CryptoError,
>)
    ensures
        r matches Ok(env) ==> envelope_seals(
            env.secure_key@,
            env.iv@,
            env.secure_payload@,
            public_pem@,
            plaintext@,
        ),
{
    let key = random_bytes(32);
    let nonce = random_bytes(12);
    let ciphertext = match aes_gcm_encrypt(key.as_slice(), nonce.as_slice(), plaintext) {
        Some(c) => c,
        None => {
            return Err(CryptoError::EncryptFailed);
        },
    };
    let wrapped = match rsa_wrap(public_pem, key.as_slice()) {
        Some(w) => w,
        None => {
            return Err(CryptoError::EncryptFailed);
        },
    };
    let env = EncryptedEnvelope {
        secure_key: b64_encode(wrapped.as_slice()),
        iv: b64_encode(nonce.as_slice()),
        secure_payload: b64_encode(ciphertext.as_slice()),
    };
    proof {
        assert(envelope_parts(
            env.secure_key@,
            env.iv@,
            env.secure_payload@,
            public_pem@,
            plaintext@,
            key@,
            nonce@,
            wrapped@,
        ));
    }
    Ok(env)
}

/// Opens an envelope with the private key: base64-decodes the three
/// parts, unwraps the session key, and opens the AEAD box.  For any
/// envelope sealed to a public key paired with this private key, the
/// sealed plaintext comes back exactly.
pub fn open_envelope(env: &EncryptedEnvelope, private_pem: &str) -> (r: Result<
    Vec<u8>,
    CryptoError,
>)
    ensures
        forall|pk: Seq<char>, pt: Seq<u8>|
            #[trigger] envelope_seals(env.secure_key@, env.iv@, env.secure_payload@, pk, pt)
                && rsa_keypair(private_pem@, pk) ==> (r matches Ok(p) && p@ == pt),
{
    let wrapped = match b64_decode(env.secure_key.as_str()) {
        Some(w) => w,
        None => {
            proof {
                assert forall|pk: Seq<char>, pt: Seq<u8>|
                    #[trigger] envelope_seals(
                        env.secure_key@,
                        env.iv@,
                        env.secure_payload@,
                        pk,
                        pt,
                    ) && rsa_keypair(private_pem@, pk) implies false by {
                    let (k, n, w): (Seq<u8>, Seq<u8>, Seq<u8>) = choose|
                        k: Seq<u8>,
                        n: Seq<u8>,
                        w: Seq<u8>,
                    |
                        envelope_parts(
                            env.secure_key@,
                            env.iv@,
                            env.secure_payload@,
                            pk,
                            pt,
                            k,
                            n,
                            w,
                        );
                    assert(env.secure_key@ == b64(w));
                }
            }
            return Err(CryptoError::BadEnvelope);
        },
    };
    let nonce = match b64_decode(env.iv.as_str()) {
        Some(n) => n,
        None => {
            proof {
                assert forall|pk: Seq<char>, pt: Seq<u8>|
                    #[trigger] envelope_seals(
                        env.secure_key@,
                        env.iv@,
                        env.secure_payload@,
                        pk,
                        pt,
                    ) && rsa_keypair(private_pem@, pk) implies false by {
                    let (k, n2, w): (Seq<u8>, Seq<u8>, Seq<u8>) = choose|
                        k: Seq<u8>,
                        n2: Seq<u8>,
                        w: Seq<u8>,
                    |
                        envelope_parts(
                            env.secure_key@,
                            env.iv@,
                            env.secure_payload@,
                            pk,
                            pt,
                            k,
                            n2,
                            w,
                        );
                    assert(env.iv@ == b64(n2));
                }
            }
            return Err(CryptoError::BadEnvelope);
        },
    };
    let ciphertext = match b64_decode(env.secure_payload.as_str()) {
        Some(c) => c,
        None => {
            proof {
                assert forall|pk: Seq<char>, pt: Seq<u8>|
                    #[trigger] envelope_seals(
                        env.secure_key@,
                        env.iv@,
                        env.secure_payload@,
                        pk,
                        pt,
                    ) && rsa_keypair(private_pem@, pk) implies false by {
                    let (k, n2, w): (Seq<u8>, Seq<u8>, Seq<u8>) = choose|
                        k: Seq<u8>,
                        n2: Seq<u8>,
                        w: Seq<u8>,
                    |
                        envelope_parts(
                            env.secure_key@,
                            env.iv@,
                            env.secure_payload@,
                            pk,
                            pt,
                            k,
                            n2,
                            w,
                        );
                    assert(env.secure_payload@ == b64(aes_seal(k, n2, pt)));
                }
            }
            return Err(CryptoError::BadEnvelope);
        },
    };
    let key_opt = rsa_unwrap_bytes(private_pem, wrapped.as_slice());
    proof {
        assert forall|pk: Seq<char>, pt: Seq<u8>|
            #[trigger] envelope_seals(env.secure_key@, env.iv@, env.secure_payload@, pk, pt)
                && rsa_keypair(private_pem@, pk) implies (key_opt matches Some(kb)
            && ({
            let (k, n2, w): (Seq<u8>, Seq<u8>, Seq<u8>) = choose|
                k: Seq<u8>,
                n2: Seq<u8>,
                w: Seq<u8>,
            | envelope_parts(env.secure_key@, env.iv@, env.secure_payload@, pk, pt, k, n2, w);
            kb@ == k && nonce@ == n2 && ciphertext@ == aes_seal(k, n2, pt)
        })) by {
            let (k, n2, w): (Seq<u8>, Seq<u8>, Seq<u8>) = choose|
                k: Seq<u8>,
                n2: Seq<u8>,
                w: Seq<u8>,
            | envelope_parts(env.secure_key@, env.iv@, env.secure_payload@, pk, pt, k, n2, w);
            assert(env.secure_key@ == b64(w));
            assert(wrapped@ == w);
            assert(env.iv@ == b64(n2));
            assert(nonce@ == n2);
            assert(env.secure_payload@ == b64(aes_seal(k, n2, pt)));
            assert(ciphertext@ == aes_seal(k, n2, pt));
            assert(rsa_unwrap(private_pem@, w) == Some(k));
        }
    }
    let key = match key_opt {
        Some(k) => k,
        None => {
            return Err(CryptoError::DecryptFailed);
        },
    };
    if key.len() != 32 || nonce.len() != 12 {
        return Err(CryptoError::DecryptFailed);
    }
    match aes_gcm_decrypt(key.as_slice(), nonce.as_slice(), ciphertext.as_slice()) {
        Some(p) => {
            proof {
                assert forall|pk: Seq<char>, pt: Seq<u8>|
                    #[trigger] envelope_seals(
                        env.secure_key@,
                        env.iv@,
                        env.secure_payload@,
                        pk,
                        pt,
                    ) && rsa_keypair(private_pem@, pk) implies p@ == pt by {
                    let (k, n2, w): (Seq<u8>, Seq<u8>, Seq<u8>) = choose|
                        k: Seq<u8>,
                        n2: Seq<u8>,
                        w: Seq<u8>,
                    |
                        envelope_parts(
                            env.secure_key@,
                            env.iv@,
                            env.secure_payload@,
                            pk,
                            pt,
                            k,
                            n2,
                            w,
                        );
                    assert(key@ == k && nonce@ == n2 && ciphertext@ == aes_seal(k, n2, pt));
                }
            }
            Ok(p)
        },
        None => {
            proof {
                assert forall|pk: Seq<char>, pt: Seq<u8>|
                    #[trigger] envelope_seals(
                        env.secure_key@,
                        env.iv@,
                        env.secure_payload@,
                        pk,
                        pt,
                    ) && rsa_keypair(private_pem@, pk) implies false by {
                    let (k, n2, w): (Seq<u8>, Seq<u8>, Seq<u8>) = choose|
                        k: Seq<u8>,
                        n2: Seq<u8>,
                        w: Seq<u8>,
                    |
                        envelope_parts(
                            env.secure_key@,
                            env.iv@,
                            env.secure_payload@,
                            pk,
                            pt,
                            k,
                            n2,
                            w,
                        );
                    assert(key@ == k && nonce@ == n2 && ciphertext@ == aes_seal(k, n2, pt));
                }
            }
            Err(CryptoError::DecryptFailed)
        },
    }
}

} // verus!
