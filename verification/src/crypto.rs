//! Key derivation and chunk encryption.
//!
//! A sync code and a per-folder salt give, through Argon2id and HKDF-SHA256,
//! an AES-256-GCM key and an HMAC-SHA256 key. Chunks are sealed with a fresh
//! random nonce that is stored in front of the ciphertext; a chunk's name
//! (the HMAC of its plain content) is bound to it as associated data.

use vstd::prelude::*;
use vstd::string::StringSliceAdditionalSpecFns;
use crate::codec::random_bytes;
use crate::text::{owned, push_str};
use aes_gcm::aead::{Aead, KeyInit, Payload};
use aes_gcm::{Aes256Gcm, Nonce};
use argon2::{Algorithm, Argon2, Params, Version};
use hkdf::Hkdf;
use hmac::{Hmac, Mac};
use sha2::Sha256;

verus! {

/// Argon2id memory cost (KiB), passes and lanes of the key derivation.
pub const ARGON2_M_COST: u32 = 65536;
pub const ARGON2_T_COST: u32 = 3;
pub const ARGON2_P_COST: u32 = 1;

/// Bytes of nonce in front of every sealed chunk.
pub const NONCE_LEN: usize = 12;
/// Bytes of authentication tag behind every ciphertext.
pub const TAG_LEN: usize = 16;
/// Largest plaintext and associated data AES-GCM accepts (2^36 bytes).
pub const AEAD_MAX: u64 = 68719476736;

pub struct Keys {
    pub enc_key: [u8; 32],
    pub hmac_key: [u8; 32],
}

// ---------------------------------------------------------------------------
// Names for what the primitives compute
// ---------------------------------------------------------------------------

/// The 32 bytes Argon2id (version 0x13) derives with these costs.
pub uninterp spec fn argon2id_output(
    m_cost: u32,
    t_cost: u32,
    p_cost: u32,
    password: Seq<u8>,
    salt: Seq<u8>,
) -> Seq<u8>;

/// The first 32 bytes of HKDF-SHA256 output keying material (no salt).
pub uninterp spec fn hkdf_sha256_okm(ikm: Seq<u8>, info: Seq<u8>) -> Seq<u8>;

/// HMAC-SHA256 of `data` under `key`.
pub uninterp spec fn hmac_sha256_tag(key: Seq<u8>, data: Seq<u8>) -> Seq<u8>;

/// AES-256-GCM ciphertext followed by its 16-byte tag.
pub uninterp spec fn aes256gcm_sealed(
    key: Seq<u8>,
    nonce: Seq<u8>,
    aad: Seq<u8>,
    msg: Seq<u8>,
) -> Seq<u8>;

/// AES-256-GCM decryption: the plaintext, or `None` where the tag does not
/// verify or a length is out of range.
pub uninterp spec fn aes256gcm_opened(
    key: Seq<u8>,
    nonce: Seq<u8>,
    aad: Seq<u8>,
    ct: Seq<u8>,
) -> Option<Seq<u8>>;

/// Costs that `argon2::Params::new` accepts.
pub open spec fn argon2_params_ok(m_cost: u32, t_cost: u32, p_cost: u32) -> bool {
    &&& 1 <= p_cost <= 0xFF_FFFF
    &&& t_cost >= 1
    &&& m_cost >= 8
    &&& m_cost >= 8 * p_cost
}

/// Password and salt lengths that `Argon2::hash_password_into` accepts.
pub open spec fn argon2_inputs_ok(password: Seq<u8>, salt: Seq<u8>) -> bool {
    password.len() <= 0xFFFF_FFFF && 8 <= salt.len() <= 0xFFFF_FFFF
}

pub enum Argon2Failure {
    Params(String),
    Hash(String),
}

// ---------------------------------------------------------------------------
// Trusted calls
// ---------------------------------------------------------------------------

/// `argon2::Params::new(m, t, p, Some(32))`, then `Argon2::new(Argon2id,
/// V0x13, params).hash_password_into` into 32 bytes. Claimed: the costs are
/// refused exactly as `Params::new` checks them, the inputs exactly as
/// `verify_inputs` checks them, and otherwise the output is the named hash.
#[verifier::external_body]
fn argon2id_hash32(m_cost: u32, t_cost: u32, p_cost: u32, password: &[u8], salt: &[u8]) -> (r:
    Result<[u8; 32], Argon2Failure>)
    requires
        p_cost <= 0x1FFF_FFFF,
    ensures
        (r matches Err(Argon2Failure::Params(_))) == !argon2_params_ok(m_cost, t_cost, p_cost),
        (r matches Err(Argon2Failure::Hash(_))) == (argon2_params_ok(m_cost, t_cost, p_cost)
            && !argon2_inputs_ok(password@, salt@)),
        r matches Ok(h) ==> h@ == argon2id_output(m_cost, t_cost, p_cost, password@, salt@),
{
    let params = match Params::new(m_cost, t_cost, p_cost, Some(32)) {
        Ok(p) => p,
        Err(e) => return Err(Argon2Failure::Params(e.to_string())),
    };
    let mut out = [0u8; 32];
    match Argon2::new(Algorithm::Argon2id, Version::V0x13, params).hash_password_into(password, salt, &mut out) {
        Ok(()) => Ok(out),
        Err(e) => Err(Argon2Failure::Hash(e.to_string())),
    }
}

/// `Hkdf::<Sha256>::new(None, ikm)` then `expand(info, &mut [0; 32])`.
/// `expand` refuses only outputs longer than 255 hash blocks, so 32 bytes
/// always succeed.
#[verifier::external_body]
fn hkdf_sha256_expand32(ikm: &[u8; 32], info: &[u8]) -> (r: Result<[u8; 32], String>)
    ensures
        r is Ok,
        r matches Ok(k) ==> k@ == hkdf_sha256_okm(ikm@, info@),
{
    let mut out = [0u8; 32];
    Hkdf::<Sha256>::new(None, ikm).expand(info, &mut out).map(|_| out).map_err(|e| e.to_string())
}

/// `Hmac::<Sha256>::new_from_slice(key)`, `update(data)`, `finalize()`; an
/// HMAC accepts a key of any length.
#[verifier::external_body]
fn hmac_sha256(key: &[u8; 32], data: &[u8]) -> (r: [u8; 32])
    ensures
        r@ == hmac_sha256_tag(key@, data@),
{
    let mut mac = <Hmac<Sha256> as Mac>::new_from_slice(key).expect("HMAC takes a key of any size");
    mac.update(data);
    let mut out = [0u8; 32];
    out.copy_from_slice(&mac.finalize().into_bytes());
    out
}

/// `Aes256Gcm::encrypt` with a 12-byte nonce. Claimed: it fails exactly when
/// the message or the associated data is longer than 2^36 bytes; the output
/// is the ciphertext and a 16-byte tag, and decrypting it with the same key,
/// nonce and associated data gives the message back.
#[verifier::external_body]
fn aes256gcm_seal(key: &[u8; 32], nonce: &[u8], aad: &[u8], msg: &[u8]) -> (r: Result<
    Vec<u8>,
    String,
>)
    requires
        nonce@.len() == NONCE_LEN,
    ensures
        (r is Ok) == (msg@.len() <= AEAD_MAX && aad@.len() <= AEAD_MAX),
        r matches Ok(ct) ==> ct@ == aes256gcm_sealed(key@, nonce@, aad@, msg@),
        r matches Ok(ct) ==> ct@.len() == msg@.len() + TAG_LEN,
        r matches Ok(ct) ==> aes256gcm_opened(key@, nonce@, aad@, ct@) == Some(msg@),
{
    let cipher = Aes256Gcm::new(key.into());
    cipher.encrypt(Nonce::from_slice(nonce), Payload { msg, aad }).map_err(|e| e.to_string())
}

/// `Aes256Gcm::decrypt` with a 12-byte nonce: the named plaintext, or an
/// error where there is none.
#[verifier::external_body]
fn aes256gcm_open(key: &[u8; 32], nonce: &[u8], aad: &[u8], ct: &[u8]) -> (r: Result<
    Vec<u8>,
    String,
>)
    requires
        nonce@.len() == NONCE_LEN,
    ensures
        match r {
            Ok(m) => aes256gcm_opened(key@, nonce@, aad@, ct@) == Some(m@),
            Err(_) => aes256gcm_opened(key@, nonce@, aad@, ct@) is None,
        },
{
    let cipher = Aes256Gcm::new(key.into());
    cipher.decrypt(Nonce::from_slice(nonce), Payload { msg: ct, aad }).map_err(|e| e.to_string())
}

// ---------------------------------------------------------------------------
// Keys
// ---------------------------------------------------------------------------

pub open spec fn enc_info() -> Seq<u8> {
    "ConnectSync_Encryption".spec_bytes()
}

pub open spec fn hmac_info() -> Seq<u8> {
    "ConnectSync_HMAC".spec_bytes()
}

/// Input keying material: Argon2id of the sync code's UTF-8 bytes.
pub open spec fn spec_ikm(sync_code: &str, salt: Seq<u8>) -> Seq<u8> {
    argon2id_output(ARGON2_M_COST, ARGON2_T_COST, ARGON2_P_COST, sync_code.spec_bytes(), salt)
}

/// Derives the encryption and HMAC keys of a sync from its code and salt.
/// Fails exactly where Argon2 refuses the inputs: a salt shorter than 8
/// bytes, or an input longer than 2^32 - 1 bytes.
pub fn derive_keys(sync_code: &str, salt: &[u8]) -> (r: Result<Keys, String>)
    ensures
        r is Ok <==> argon2_inputs_ok(sync_code.spec_bytes(), salt@),
        r matches Ok(k) ==> k.enc_key@ == hkdf_sha256_okm(spec_ikm(sync_code, salt@), enc_info())
            && k.hmac_key@ == hkdf_sha256_okm(spec_ikm(sync_code, salt@), hmac_info()),
        r matches Ok(k) ==> k.enc_key@ == hkdf_sha256_okm(
            argon2id_output(65536, 3, 1, sync_code.spec_bytes(), salt@),
            "ConnectSync_Encryption".spec_bytes(),
        ),
        r matches Ok(k) ==> k.hmac_key@ == hkdf_sha256_okm(
            argon2id_output(65536, 3, 1, sync_code.spec_bytes(), salt@),
            "ConnectSync_HMAC".spec_bytes(),
        ),
{
    let ikm = match argon2id_hash32(
        ARGON2_M_COST,
        ARGON2_T_COST,
        ARGON2_P_COST,
        sync_code.as_bytes(),
        salt,
    ) {
        Ok(h) => h,
        Err(Argon2Failure::Params(e)) => {
            let mut m = owned("Argon2 params hatası: ");
            push_str(&mut m, e.as_str());
            return Err(m);
        },
        Err(Argon2Failure::Hash(e)) => {
            let mut m = owned("Anahtar türetme hatası: ");
            push_str(&mut m, e.as_str());
            return Err(m);
        },
    };
    let enc_key = match hkdf_sha256_expand32(&ikm, "ConnectSync_Encryption".as_bytes()) {
        Ok(k) => k,
        Err(e) => {
            let mut m = owned("HKDF enc error: ");
            push_str(&mut m, e.as_str());
            return Err(m);
        },
    };
    let hmac_key = match hkdf_sha256_expand32(&ikm, "ConnectSync_HMAC".as_bytes()) {
        Ok(k) => k,
        Err(e) => {
            let mut m = owned("HKDF hmac error: ");
            push_str(&mut m, e.as_str());
            return Err(m);
        },
    };
    Ok(Keys { enc_key, hmac_key })
}

/// The keys every device derives from a sync code and salt: Argon2id
/// (64 MiB, 3 passes, 1 lane) of the code's UTF-8 bytes, expanded by HKDF-
/// SHA256 under the info `ConnectSync_Encryption` for the encryption key and
/// `ConnectSync_HMAC` for the HMAC key; the two infos differ, so the keys are
/// expanded under different labels.
pub proof fn law_keys_come_from_the_fixed_labels(sync_code: &str, salt: Seq<u8>)
    ensures
        spec_ikm(sync_code, salt) == argon2id_output(65536, 3, 1, sync_code.spec_bytes(), salt),
        enc_info() == "ConnectSync_Encryption".spec_bytes(),
        hmac_info() == "ConnectSync_HMAC".spec_bytes(),
        enc_info() != hmac_info(),
{
    reveal_strlit("ConnectSync_Encryption");
    reveal_strlit("ConnectSync_HMAC");
    let e = "ConnectSync_Encryption"@;
    let h = "ConnectSync_HMAC"@;
    assert(e.len() != h.len());
    assert(vstd::utf8::is_ascii_chars(e));
    assert(vstd::utf8::is_ascii_chars(h));
    vstd::utf8::is_ascii_chars_encode_utf8(e);
    vstd::utf8::is_ascii_chars_encode_utf8(h);
}

/// Content-derived chunk name: HMAC-SHA256 of the plain chunk.
pub fn hash_chunk_name(hmac_key: &[u8; 32], data: &[u8]) -> (r: [u8; 32])
    ensures
        r@ == hmac_sha256_tag(hmac_key@, data@),
{
    hmac_sha256(hmac_key, data)
}

// ---------------------------------------------------------------------------
// Chunks
// ---------------------------------------------------------------------------

/// What `decrypt_chunk` gives for a stored chunk: the nonce is its first 12
/// bytes, the sealed message the rest.
pub open spec fn spec_decrypt_chunk(key: Seq<u8>, aad: Seq<u8>, enc: Seq<u8>) -> Option<Seq<u8>> {
    if enc.len() < NONCE_LEN {
        None
    } else {
        aes256gcm_opened(key, enc.take(NONCE_LEN as int), aad, enc.skip(NONCE_LEN as int))
    }
}

/// The error of a seal whose nonce could not be drawn: the operating
/// system's random source failed.
pub open spec fn nonce_failure(m: Seq<char>) -> bool {
    exists|e: Seq<char>| m == "Rastgele nonce üretilemedi: "@ + e
}

/// Seals a chunk under the given nonce: nonce ‖ ciphertext ‖ tag. A message
/// or name longer than 2^36 bytes is refused. What comes back decrypts, with
/// the same key and name, to `data`.
pub fn seal_with_nonce(enc_key: &[u8; 32], nonce: &[u8], name_aad: &str, data: &[u8]) -> (r:
    Result<Vec<u8>, String>)
    requires
        nonce@.len() == NONCE_LEN,
    ensures
        (r is Ok) == (data@.len() <= AEAD_MAX && name_aad.spec_bytes().len() <= AEAD_MAX),
        r matches Ok(out) ==> out@ == nonce@ + aes256gcm_sealed(
            enc_key@,
            nonce@,
            name_aad.spec_bytes(),
            data@,
        ),
        r matches Ok(out) ==> out@.len() == NONCE_LEN + data@.len() + TAG_LEN,
        r matches Ok(out) ==> spec_decrypt_chunk(enc_key@, name_aad.spec_bytes(), out@) == Some(
            data@,
        ),
        r matches Err(m) ==> exists|e: Seq<char>| m@ == "Şifreleme hatası: "@ + e,
{
    let mut encrypted = match aes256gcm_seal(enc_key, nonce, name_aad.as_bytes(), data) {
        Ok(ct) => ct,
        Err(e) => {
            let mut m = owned("Şifreleme hatası: ");
            push_str(&mut m, e.as_str());
            assert(m@ == "Şifreleme hatası: "@ + e@);
            return Err(m);
        },
    };
    let mut out: Vec<u8> = Vec::new();
    let mut i: usize = 0;
    while i < nonce.len()
        invariant
            i <= nonce@.len(),
            out@ == nonce@.take(i as int),
        decreases nonce@.len() - i,
    {
        out.push(nonce[i]);
        assert(nonce@.take(i + 1) =~= nonce@.take(i as int).push(nonce@[i as int]));
        i = i + 1;
    }
    assert(nonce@.take(nonce@.len() as int) =~= nonce@);
    let ghost ct = encrypted@;
    out.append(&mut encrypted);
    assert(out@ =~= nonce@ + ct);
    assert(out@.take(NONCE_LEN as int) =~= nonce@);
    assert(out@.skip(NONCE_LEN as int) =~= ct);
    Ok(out)
}

/// Seals a chunk under a fresh random nonce (see `seal_with_nonce`). The
/// operating system's random source may fail; whatever comes back decrypts,
/// with the same key and name, to `data`.
pub fn encrypt_chunk(enc_key: &[u8; 32], name_aad: &str, data: &[u8]) -> (r: Result<
    Vec<u8>,
    String,
>)
    ensures
        data@.len() > AEAD_MAX || name_aad.spec_bytes().len() > AEAD_MAX ==> r is Err,
        r matches Ok(out) ==> out@.len() == NONCE_LEN + data@.len() + TAG_LEN,
        r matches Ok(out) ==> out@ == out@.take(NONCE_LEN as int) + aes256gcm_sealed(
            enc_key@,
            out@.take(NONCE_LEN as int),
            name_aad.spec_bytes(),
            data@,
        ),
        r matches Ok(out) ==> out@.skip(NONCE_LEN as int) == aes256gcm_sealed(
            enc_key@,
            out@.take(NONCE_LEN as int),
            name_aad.spec_bytes(),
            data@,
        ),
        r matches Ok(out) ==> spec_decrypt_chunk(enc_key@, name_aad.spec_bytes(), out@) == Some(
            data@,
        ),
        r matches Err(m) ==> nonce_failure(m@) || ((data@.len() > AEAD_MAX
            || name_aad.spec_bytes().len() > AEAD_MAX) && exists|e: Seq<char>|
            m@ == "Şifreleme hatası: "@ + e),
{
    let nonce = match random_bytes(NONCE_LEN) {
        Ok(n) => n,
        Err(e) => {
            let mut m = owned("Rastgele nonce üretilemedi: ");
            push_str(&mut m, e.as_str());
            assert(m@ == "Rastgele nonce üretilemedi: "@ + e@);
            return Err(m);
        },
    };
    let r = seal_with_nonce(enc_key, nonce.as_slice(), name_aad, data);
    proof {
        if r is Ok {
            let out = r->Ok_0;
            assert(out@.take(NONCE_LEN as int) =~= nonce@);
            assert(out@.skip(NONCE_LEN as int) =~= aes256gcm_sealed(
                enc_key@,
                nonce@,
                name_aad.spec_bytes(),
                data@,
            ));
        }
    }
    r
}

/// Opens a stored chunk; fails on a chunk shorter than its nonce, on a wrong
/// key or name, and on any altered byte.
pub fn decrypt_chunk(enc_key: &[u8; 32], name_aad: &str, encrypted_data: &[u8]) -> (r: Result<
    Vec<u8>,
    String,
>)
    ensures
        match r {
            Ok(m) => spec_decrypt_chunk(enc_key@, name_aad.spec_bytes(), encrypted_data@) == Some(
                m@,
            ),
            Err(_) => spec_decrypt_chunk(enc_key@, name_aad.spec_bytes(), encrypted_data@) is None,
        },
        encrypted_data@.len() < NONCE_LEN ==> (r matches Err(m) && m@
            == "Geçersiz şifreli veri boyutu (nonce eksik)"@),
{
    if encrypted_data.len() < NONCE_LEN {
        return Err(owned("Geçersiz şifreli veri boyutu (nonce eksik)"));
    }
    let (nonce, ciphertext) = encrypted_data.split_at(NONCE_LEN);
    assert(nonce@ =~= encrypted_data@.take(NONCE_LEN as int));
    assert(ciphertext@ =~= encrypted_data@.skip(NONCE_LEN as int));
    match aes256gcm_open(enc_key, nonce, name_aad.as_bytes(), ciphertext) {
        Ok(m) => Ok(m),
        Err(e) => {
            let mut m = owned("Şifre çözme hatası (veya veri bozulmuş): ");
            push_str(&mut m, e.as_str());
            Err(m)
        },
    }
}

} // verus!
