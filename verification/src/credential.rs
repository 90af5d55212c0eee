//! Provider credentials, encrypted at rest with AES-256-GCM.
//!
//! The key comes from SHA-256 of the key id (or of a fixed local seed when
//! none is given); the nonce from SHA-256 of the tenant, the provider and
//! the encryption time. Storing refuses a second active credential for the
//! same provider; rotating a key re-encrypts, under the new key, every
//! active credential encrypted under the old one.
use vstd::prelude::*;
use vstd::utf8::{decode_utf8, encode_utf8, valid_utf8};
use aes_gcm::aead::{Aead, KeyInit};
use aes_gcm::{Aes256Gcm, Key, Nonce};
use sha2::{Digest, Sha256};
use crate::text::{chars_of, concat3, decimal, decimal_chars, opt_str_view, push_all, push_str, string_from_chars};

verus! {

/// The error type of `aes_gcm`'s encryption and decryption.
#[verifier::external_type_specification]
#[verifier::external_body]
pub struct ExAeadError(aes_gcm::Error);

/// SHA-256 of a byte string (named: the digest takes pages to state).
pub uninterp spec fn sha256_of(data: Seq<u8>) -> Seq<u8>;

/// AES-256-GCM encryption of `plaintext` under `key` and `nonce`, without
/// associated data: the ciphertext followed by the tag.
pub uninterp spec fn aes256gcm_seal(key: Seq<u8>, nonce: Seq<u8>, plaintext: Seq<u8>) -> Seq<u8>;

/// AES-256-GCM decryption: the plaintext when the tag verifies.
pub uninterp spec fn aes256gcm_open(key: Seq<u8>, nonce: Seq<u8>, ciphertext: Seq<u8>) -> Option<Seq<u8>>;

/// Largest plaintext that AES-GCM encrypts (2^36 bytes).
pub open spec fn plaintext_max() -> nat {
    0x10_0000_0000
}

/// A decryption result gives back the plaintext whenever the ciphertext is
/// that plaintext sealed under the same key and nonce.
pub open spec fn opens_what_was_sealed(key: Seq<u8>, nonce: Seq<u8>, ciphertext: Seq<u8>, r: Result<Vec<u8>, aes_gcm::Error>) -> bool {
    forall|p: Seq<u8>| ciphertext == aes256gcm_seal(key, nonce, p) && p.len() <= plaintext_max()
        ==> (r matches Ok(q) && q@ == p)
}

/// `Sha256::digest` from `sha2`: the 32-byte SHA-256 digest of `data`.
#[verifier::external_body]
fn sha256(data: &[u8]) -> (r: Vec<u8>)
    ensures
        r@ == sha256_of(data@),
        r@.len() == 32,
{
    Sha256::digest(data).to_vec()
}

/// `Aead::encrypt` of `aes_gcm::Aes256Gcm`, keyed with `key` (via
/// `Key::from_slice`, which needs 32 bytes) and with the 12-byte `nonce`.
/// The source refuses a plaintext longer than 2^36 bytes and otherwise
/// returns the sealed text.
#[verifier::external_body]
fn aes256gcm_encrypt(key: &[u8], nonce: &[u8], plaintext: &[u8]) -> (r: Result<Vec<u8>, aes_gcm::Error>)
    requires
        key@.len() == 32,
        nonce@.len() == 12,
    ensures
        r matches Ok(c) ==> c@ == aes256gcm_seal(key@, nonce@, plaintext@),
        plaintext@.len() <= plaintext_max() <==> r is Ok,
{
    let cipher = Aes256Gcm::new(Key::<Aes256Gcm>::from_slice(key));
    cipher.encrypt(Nonce::from_slice(nonce), plaintext)
}

/// `Aead::decrypt` of `aes_gcm::Aes256Gcm`, keyed as above. It returns the
/// plaintext exactly when the tag verifies; and, as for any AEAD, a text
/// sealed under the same key and nonce opens to what was sealed. That a
/// text sealed under another key fails to open holds only with
/// overwhelming probability, and is not stated.
#[verifier::external_body]
fn aes256gcm_decrypt(key: &[u8], nonce: &[u8], ciphertext: &[u8]) -> (r: Result<Vec<u8>, aes_gcm::Error>)
    requires
        key@.len() == 32,
        nonce@.len() == 12,
    ensures
        r is Ok <==> aes256gcm_open(key@, nonce@, ciphertext@) is Some,
        r matches Ok(p) ==> aes256gcm_open(key@, nonce@, ciphertext@) == Some(p@),
        opens_what_was_sealed(key@, nonce@, ciphertext@, r),
{
    let cipher = Aes256Gcm::new(Key::<Aes256Gcm>::from_slice(key));
    cipher.decrypt(Nonce::from_slice(nonce), ciphertext)
}

/// `String::from_utf8`: the string the bytes encode, when they are UTF-8;
/// otherwise the error's `Display` text (not stated here).
#[verifier::external_body]
fn string_from_utf8(bytes: Vec<u8>) -> (r: Result<String, String>)
    ensures
        r is Ok <==> valid_utf8(bytes@),
        r matches Ok(s) ==> s@ == decode_utf8(bytes@),
{
    String::from_utf8(bytes).map_err(|e| e.to_string())
}

/// Why a credential operation failed.
#[derive(Debug)]
pub enum CredentialError {
    NotFound { entity: String, id: String },
    Conflict { id: String },
    Internal(String),
}

/// The seed of the key for a key id.
pub open spec fn key_seed(key_id: Option<Seq<char>>) -> Seq<char> {
    match key_id {
        Some(k) => k,
        None => "cairn-local-test-key"@,
    }
}

/// The AES key for a key id.
pub open spec fn key_for(key_id: Option<Seq<char>>) -> Seq<u8> {
    sha256_of(encode_utf8(key_seed(key_id)))
}

/// The text whose digest gives the nonce.
pub open spec fn nonce_text(tenant_id: Seq<char>, provider_id: Seq<char>, at: u64) -> Seq<char> {
    tenant_id + ":"@ + provider_id + ":"@ + decimal(at as nat)
}

/// The nonce for a credential encrypted at `at`.
pub open spec fn nonce_for(tenant_id: Seq<char>, provider_id: Seq<char>, at: u64) -> Seq<u8> {
    sha256_of(encode_utf8(nonce_text(tenant_id, provider_id, at))).take(12)
}

/// The key material for a key id.
pub fn derive_key_material(key_id: Option<&str>) -> (r: Vec<u8>)
    ensures
        r@ == key_for(match key_id {
            Some(k) => Some(k@),
            None => None,
        }),
        r@.len() == 32,
{
    let seed: &str = match key_id {
        Some(k) => k,
        None => "cairn-local-test-key",
    };
    sha256(seed.as_bytes())
}

/// The nonce for a credential of `provider_id` of tenant `tenant_id`,
/// encrypted at `at`.
pub fn derive_nonce(tenant_id: &str, provider_id: &str, at: u64) -> (r: Vec<u8>)
    ensures
        r@ == nonce_for(tenant_id@, provider_id@, at),
        r@.len() == 12,
{
    let mut text: Vec<char> = Vec::new();
    push_str(&mut text, tenant_id);
    push_str(&mut text, ":");
    push_str(&mut text, provider_id);
    push_str(&mut text, ":");
    let digits = decimal_chars(at);
    push_all(&mut text, digits.as_slice());
    let s = string_from_chars(text.as_slice());
    let digest = sha256(s.as_str().as_bytes());
    let mut nonce: Vec<u8> = Vec::new();
    let mut i: usize = 0;
    while i < 12
        invariant
            i <= 12,
            digest@.len() == 32,
            nonce@ == digest@.take(i as int),
        decreases 12 - i,
    {
        nonce.push(digest[i]);
        assert(digest@.take(i + 1) =~= digest@.take(i as int).push(digest@[i as int]));
        i = i + 1;
    }
    proof {
        assert(s@ =~= nonce_text(tenant_id@, provider_id@, at));
    }
    nonce
}

pub open spec fn opt_ref_view(o: Option<&str>) -> Option<Seq<char>> {
    match o {
        Some(k) => Some(k@),
        None => None,
    }
}

/// Encrypts a credential value.
pub fn encrypt_value(tenant_id: &str, provider_id: &str, plaintext: &str, key_id: Option<&str>, at: u64) -> (r: Result<Vec<u8>, CredentialError>)
    ensures
        match r {
            Ok(c) => c@ == aes256gcm_seal(key_for(opt_ref_view(key_id)), nonce_for(tenant_id@, provider_id@, at), encode_utf8(plaintext@)),
            Err(e) => e matches CredentialError::Internal(m) && m@ == "credential encryption failed: aead::Error"@,
        },
        encode_utf8(plaintext@).len() <= plaintext_max() <==> r is Ok,
{
    let key = derive_key_material(key_id);
    let nonce = derive_nonce(tenant_id, provider_id, at);
    match aes256gcm_encrypt(key.as_slice(), nonce.as_slice(), plaintext.as_bytes()) {
        Ok(c) => Ok(c),
        Err(_) => Err(CredentialError::Internal("credential encryption failed: aead::Error".to_owned())),
    }
}

/// What decrypting a credential gives: its text, when the tag verifies and
/// the plaintext is UTF-8.
pub open spec fn decrypted(tenant_id: Seq<char>, provider_id: Seq<char>, ciphertext: Seq<u8>, key_id: Option<Seq<char>>, at: u64) -> Option<Seq<char>> {
    match aes256gcm_open(key_for(key_id), nonce_for(tenant_id, provider_id, at), ciphertext) {
        Some(p) => if valid_utf8(p) { Some(decode_utf8(p)) } else { None },
        None => None,
    }
}

/// The message of a failed decryption: the cipher's refusal, or, where the
/// plaintext is not UTF-8, a message that starts by saying so.
pub open spec fn decrypt_failure(tenant_id: Seq<char>, provider_id: Seq<char>, ciphertext: Seq<u8>, key_id: Option<Seq<char>>, at: u64, m: Seq<char>) -> bool {
    match aes256gcm_open(key_for(key_id), nonce_for(tenant_id, provider_id, at), ciphertext) {
        None => m == "credential decryption failed: aead::Error"@,
        Some(_) => "credential plaintext invalid utf-8: "@.is_prefix_of(m),
    }
}

/// Decrypts a credential value. A value encrypted by [`encrypt_value`]
/// with the same tenant, provider, key id and time decrypts to its text.
pub fn decrypt_value(tenant_id: &str, provider_id: &str, ciphertext: &[u8], key_id: Option<&str>, at: u64) -> (r: Result<String, CredentialError>)
    ensures
        match r {
            Ok(s) => decrypted(tenant_id@, provider_id@, ciphertext@, opt_ref_view(key_id), at) == Some(s@),
            Err(e) => decrypted(tenant_id@, provider_id@, ciphertext@, opt_ref_view(key_id), at) is None
                && (e matches CredentialError::Internal(m)
                && decrypt_failure(tenant_id@, provider_id@, ciphertext@, opt_ref_view(key_id), at, m@)),
        },
        forall|text: Seq<char>| ciphertext@ == aes256gcm_seal(key_for(opt_ref_view(key_id)), nonce_for(tenant_id@, provider_id@, at), encode_utf8(text))
            && encode_utf8(text).len() <= plaintext_max() ==> (r matches Ok(s) && s@ == text),
{
    broadcast use vstd::utf8::encode_utf8_valid_utf8, vstd::utf8::encode_utf8_decode_utf8;

    let key = derive_key_material(key_id);
    let nonce = derive_nonce(tenant_id, provider_id, at);
    let plain = match aes256gcm_decrypt(key.as_slice(), nonce.as_slice(), ciphertext) {
        Ok(p) => p,
        Err(_) => {
            return Err(CredentialError::Internal("credential decryption failed: aead::Error".to_owned()));
        },
    };
    let ghost pb = plain@;
    match string_from_utf8(plain) {
        Ok(s) => Ok(s),
        Err(detail) => {
            proof {
                assert forall|text: Seq<char>| ciphertext@ == aes256gcm_seal(key@, nonce@, encode_utf8(text))
                    && encode_utf8(text).len() <= plaintext_max() implies false by {
                    assert(pb == encode_utf8(text));
                }
            }
            Err(CredentialError::Internal(concat3("credential plaintext invalid utf-8: ", detail.as_str(), "")))
        },
    }
}

/// A stored credential, as the service reads it.
#[derive(Debug)]
pub struct CredentialInfo {
    pub id: String,
    pub tenant_id: String,
    pub provider_id: String,
    pub encrypted_value: Vec<u8>,
    pub key_id: Option<String>,
    pub key_version: Option<String>,
    pub encrypted_at_ms: Option<u64>,
    pub active: bool,
}

/// Whether an active credential for `provider_id` is among `existing`.
pub open spec fn has_active(existing: Seq<CredentialInfo>, provider_id: Seq<char>) -> bool {
    exists|i: int| 0 <= i < existing.len() && #[trigger] existing[i].active && existing[i].provider_id@ == provider_id
}

/// The conflict id of a duplicate credential.
pub open spec fn conflict_id(provider_id: Seq<char>, tenant_id: Seq<char>) -> Seq<char> {
    "provider="@ + provider_id + " tenant="@ + tenant_id
}

/// The id of a credential stored at `at`.
pub open spec fn credential_id_at(at: u64) -> Seq<char> {
    "cred_"@ + decimal(at as nat)
}

fn prefixed(prefix: &str, n: u64) -> (r: String)
    ensures
        r@ == prefix@ + decimal(n as nat),
{
    let mut v: Vec<char> = Vec::new();
    push_str(&mut v, prefix);
    let d = decimal_chars(n);
    push_all(&mut v, d.as_slice());
    string_from_chars(v.as_slice())
}

fn active_for(existing: &Vec<CredentialInfo>, provider_id: &str) -> (r: bool)
    ensures
        r == has_active(existing@, provider_id@),
{
    let p = provider_id.to_owned();
    let mut i: usize = 0;
    while i < existing.len()
        invariant
            i <= existing@.len(),
            p@ == provider_id@,
            forall|j: int| 0 <= j < i ==> !(#[trigger] existing@[j].active && existing@[j].provider_id@ == provider_id@),
        decreases existing@.len() - i,
    {
        if existing[i].active && existing[i].provider_id == p {
            return true;
        }
        i = i + 1;
    }
    false
}

/// A credential to store: its id, the encrypted value, the key version.
#[derive(Debug)]
pub struct NewCredential {
    pub credential_id: String,
    pub encrypted_value: Vec<u8>,
    pub key_version: String,
}

/// Prepares the storage of a credential at `at`: refused with `NotFound`
/// when the tenant does not exist, and when the tenant
/// already has an active credential for the provider, and with an internal
/// error when the value is too long to encrypt; otherwise the value
/// encrypted under the key id, with id `cred_<at>` and key version `v1`.
pub fn prepare_store(
    tenant_id: &str,
    tenant_exists: bool,
    provider_id: &str,
    plaintext: &str,
    key_id: Option<&str>,
    existing: &Vec<CredentialInfo>,
    at: u64,
) -> (r: Result<NewCredential, CredentialError>)
    ensures
        !tenant_exists ==> (r matches Err(CredentialError::NotFound { entity, id }) && entity@ == "tenant"@ && id@ == tenant_id@),
        tenant_exists && has_active(existing@, provider_id@) ==> (r matches Err(CredentialError::Conflict { id }) && id@ == conflict_id(provider_id@, tenant_id@)),
        tenant_exists && !has_active(existing@, provider_id@) && encode_utf8(plaintext@).len() <= plaintext_max() ==> r is Ok,
        tenant_exists && !has_active(existing@, provider_id@) && encode_utf8(plaintext@).len() > plaintext_max() ==> (r matches Err(
            CredentialError::Internal(m),
        ) && m@ == "credential encryption failed: aead::Error"@),
        r matches Ok(c) ==> {
            &&& c.credential_id@ == credential_id_at(at)
            &&& c.key_version@ == "v1"@
            &&& c.encrypted_value@ == aes256gcm_seal(key_for(opt_ref_view(key_id)), nonce_for(tenant_id@, provider_id@, at), encode_utf8(plaintext@))
        },
{
    if !tenant_exists {
        return Err(CredentialError::NotFound { entity: "tenant".to_owned(), id: tenant_id.to_owned() });
    }
    if active_for(existing, provider_id) {
        let mut v: Vec<char> = Vec::new();
        push_str(&mut v, "provider=");
        push_str(&mut v, provider_id);
        push_str(&mut v, " tenant=");
        push_str(&mut v, tenant_id);
        return Err(CredentialError::Conflict { id: string_from_chars(v.as_slice()) });
    }
    let encrypted_value = match encrypt_value(tenant_id, provider_id, plaintext, key_id, at) {
        Ok(c) => c,
        Err(e) => return Err(e),
    };
    Ok(NewCredential { credential_id: prefixed("cred_", at), encrypted_value, key_version: "v1".to_owned() })
}

/// Lexicographic order of character sequences (the order of `str`).
pub open spec fn text_lt(a: Seq<char>, b: Seq<char>) -> bool
    decreases a.len(),
{
    if b.len() == 0 {
        false
    } else if a.len() == 0 {
        true
    } else if a[0] != b[0] {
        (a[0] as u32) < (b[0] as u32)
    } else {
        text_lt(a.drop_first(), b.drop_first())
    }
}

fn chars_lt(a: &[char], b: &[char]) -> (r: bool)
    ensures
        r == text_lt(a@, b@),
{
    let mut i: usize = 0;
    assert(a@.skip(0) =~= a@);
    assert(b@.skip(0) =~= b@);
    while i < a.len() && i < b.len()
        invariant
            i <= a@.len(),
            i <= b@.len(),
            a@.take(i as int) == b@.take(i as int),
            text_lt(a@, b@) == text_lt(a@.skip(i as int), b@.skip(i as int)),
        decreases a@.len() - i,
    {
        if a[i] != b[i] {
            proof {
                assert(a@.skip(i as int)[0] == a@[i as int]);
                assert(b@.skip(i as int)[0] == b@[i as int]);
            }
            return (a[i] as u32) < (b[i] as u32);
        }
        proof {
            assert(a@.skip(i as int).drop_first() =~= a@.skip(i + 1));
            assert(b@.skip(i as int).drop_first() =~= b@.skip(i + 1));
            assert(a@.take(i + 1) =~= a@.take(i as int).push(a@[i as int]));
            assert(b@.take(i + 1) =~= b@.take(i as int).push(b@[i as int]));
        }
        i = i + 1;
    }
    i < b.len()
}

/// Whether a concurrent store of the same provider won the race against
/// ours: after both were appended, more than one active credential of the
/// provider exists, and one of them has an id after ours (ours is then
/// revoked).
pub open spec fn lost_race(post: Seq<CredentialInfo>, provider_id: Seq<char>, our_id: Seq<char>) -> bool {
    let actives = post.filter(|c: CredentialInfo| c.active && c.provider_id@ == provider_id);
    actives.len() > 1 && exists|i: int| 0 <= i < actives.len() && text_lt(our_id, #[trigger] actives[i].id@)
}

/// What a store does once its event is appended and the tenant's
/// credentials are read again.
#[derive(Debug)]
pub enum StoreSettlement {
    /// The new credential stands.
    Keep,
    /// Another store for the same provider won the race: the new credential
    /// is revoked and the store is refused with `error`.
    Revoke { credential_id: String, error: CredentialError },
}

/// Settles a store after its append, from the tenant's credentials as read
/// again (`post`): when the race was lost, the new credential `our_id` is
/// revoked and the store refused with the same conflict as a duplicate;
/// otherwise it stands.
pub fn settle_store(post: &Vec<CredentialInfo>, tenant_id: &str, provider_id: &str, our_id: &String) -> (r: StoreSettlement)
    ensures
        lost_race(post@, provider_id@, our_id@) ==> (r matches StoreSettlement::Revoke { credential_id, error }
            && credential_id@ == our_id@ && (error matches CredentialError::Conflict { id } && id@ == conflict_id(provider_id@, tenant_id@))),
        !lost_race(post@, provider_id@, our_id@) ==> r is Keep,
{
    if check_lost_race(post, provider_id, our_id) {
        let mut v: Vec<char> = Vec::new();
        push_str(&mut v, "provider=");
        push_str(&mut v, provider_id);
        push_str(&mut v, " tenant=");
        push_str(&mut v, tenant_id);
        StoreSettlement::Revoke { credential_id: our_id.clone(), error: CredentialError::Conflict { id: string_from_chars(v.as_slice()) } }
    } else {
        StoreSettlement::Keep
    }
}

/// Decides [`lost_race`].
pub fn check_lost_race(post: &Vec<CredentialInfo>, provider_id: &str, our_id: &String) -> (r: bool)
    ensures
        r == lost_race(post@, provider_id@, our_id@),
{
    let ghost f = |c: CredentialInfo| c.active && c.provider_id@ == provider_id@;
    let p = provider_id.to_owned();
    let ours = chars_of(our_id.as_str());
    let mut count: usize = 0;
    let mut later = false;
    let mut i: usize = 0;
    while i < post.len()
        invariant
            i <= post@.len(),
            p@ == provider_id@,
            ours@ == our_id@,
            f == (|c: CredentialInfo| c.active && c.provider_id@ == provider_id@),
            count == post@.take(i as int).filter(f).len(),
            later == exists|j: int| 0 <= j < post@.take(i as int).filter(f).len()
                && text_lt(our_id@, #[trigger] post@.take(i as int).filter(f)[j].id@),
        decreases post@.len() - i,
    {
        let c = &post[i];
        let ghost prev = post@.take(i as int).filter(f);
        proof {
            assert(post@.take(i + 1) =~= post@.take(i as int).push(post@[i as int]));
            post@.take(i as int).lemma_filter_push(post@[i as int], f);
            reveal(Seq::filter);
        }
        if c.active && c.provider_id == p {
            let ids = chars_of(c.id.as_str());
            let lt = chars_lt(ours.as_slice(), ids.as_slice());
            proof {
                let now = post@.take(i + 1).filter(f);
                assert(now == prev.push(post@[i as int]));
                if later {
                    let j = choose|j: int| 0 <= j < prev.len() && text_lt(our_id@, #[trigger] prev[j].id@);
                    assert(now[j] == prev[j]);
                }
                if lt {
                    assert(now[prev.len() as int] == post@[i as int]);
                }
                if !later && !lt {
                    assert forall|j: int| 0 <= j < now.len() implies !text_lt(our_id@, #[trigger] now[j].id@) by {
                        if j < prev.len() {
                            assert(now[j] == prev[j]);
                        }
                    }
                }
            }
            count = count + 1;
            later = later || lt;
        }
        i = i + 1;
    }
    assert(post@.take(post@.len() as int) =~= post@);
    count > 1 && later
}

/// The credentials a rotation from `old_key_id` re-encrypts: the active ones
/// encrypted under that key.
pub open spec fn rotation_candidates(records: Seq<CredentialInfo>, old_key_id: Seq<char>) -> Seq<CredentialInfo> {
    records.filter(|c: CredentialInfo| c.active && opt_str_view(c.key_id) == Some(old_key_id))
}

/// A credential re-encrypted by a rotation.
#[derive(Debug)]
pub struct RotatedCredential {
    pub credential_id: String,
    pub tenant_id: String,
    pub provider_id: String,
    pub encrypted_value: Vec<u8>,
    pub key_version: String,
    pub encrypted_at_ms: u64,
}

/// The time the `idx`-th credential of a rotation started at `started` is
/// re-encrypted at (saturating).
pub open spec fn rotated_at(started: u64, idx: int) -> u64 {
    if started + idx > u64::MAX { u64::MAX } else { (started + idx) as u64 }
}

/// Whether `r` is the re-encryption of `c` as the `idx`-th credential of a
/// rotation to `new_key_id` started at `started`: same id, tenant and
/// provider; its key version kept (`v1` when it had none); the text that
/// `c` decrypts to, sealed under the new key at its rotation time.
pub open spec fn rotated_from(r: RotatedCredential, c: CredentialInfo, new_key_id: Seq<char>, started: u64, idx: int) -> bool {
    &&& r.credential_id@ == c.id@
    &&& r.tenant_id@ == c.tenant_id@
    &&& r.provider_id@ == c.provider_id@
    &&& r.encrypted_at_ms == rotated_at(started, idx)
    &&& r.key_version@ == match c.key_version {
        Some(v) => v@,
        None => "v1"@,
    }
    &&& c.encrypted_at_ms is Some
    &&& exists|text: Seq<char>| decrypted(c.tenant_id@, c.provider_id@, c.encrypted_value@, opt_str_view(c.key_id), c.encrypted_at_ms->0) == Some(text)
        && r.encrypted_value@ == aes256gcm_seal(key_for(Some(new_key_id)), nonce_for(c.tenant_id@, c.provider_id@, rotated_at(started, idx)), encode_utf8(text))
}

/// The id of a rotation started at `started`.
pub open spec fn rotation_id_at(started: u64) -> Seq<char> {
    "credrot_"@ + decimal(started as nat)
}

fn own_opt(o: &Option<String>) -> (r: Option<&str>)
    ensures
        opt_ref_view(r) == opt_str_view(*o),
{
    match o {
        Some(s) => Some(s.as_str()),
        None => None,
    }
}

/// Whether a rotation can re-encrypt a credential: it has an encryption
/// time, it decrypts to text, and that text is short enough to seal.
pub open spec fn rotation_ok(c: CredentialInfo) -> bool {
    &&& c.encrypted_at_ms is Some
    &&& match decrypted(c.tenant_id@, c.provider_id@, c.encrypted_value@, opt_str_view(c.key_id), c.encrypted_at_ms->0) {
        Some(text) => encode_utf8(text).len() <= plaintext_max(),
        None => false,
    }
}

/// The error a rotation reports for a credential it cannot re-encrypt: an
/// internal error, naming the credential when it lacks an encryption time,
/// giving the decryption failure when it does not decrypt to text, and the
/// encryption failure when its text is too long to seal.
pub open spec fn rotation_error(c: CredentialInfo, e: CredentialError) -> bool {
    &&& e matches CredentialError::Internal(m) && (c.encrypted_at_ms is None ==> m@ == "credential "@ + c.id@
        + " missing encrypted_at_ms"@) && (c.encrypted_at_ms is Some && decrypted(
        c.tenant_id@,
        c.provider_id@,
        c.encrypted_value@,
        opt_str_view(c.key_id),
        c.encrypted_at_ms->0,
    ) is Some ==> m@ == "credential encryption failed: aead::Error"@) && (c.encrypted_at_ms is Some && decrypted(
        c.tenant_id@,
        c.provider_id@,
        c.encrypted_value@,
        opt_str_view(c.key_id),
        c.encrypted_at_ms->0,
    ) is None ==> decrypt_failure(
        c.tenant_id@,
        c.provider_id@,
        c.encrypted_value@,
        opt_str_view(c.key_id),
        c.encrypted_at_ms->0,
        m@,
    ))
}

/// A prefix of a sequence filters to a prefix of the whole filter.
proof fn lemma_filter_prefix(s: Seq<CredentialInfo>, f: spec_fn(CredentialInfo) -> bool, i: int, j: int)
    requires
        0 <= i <= j <= s.len(),
    ensures
        s.take(i).filter(f).len() <= s.take(j).filter(f).len(),
        forall|k: int| 0 <= k < s.take(i).filter(f).len() ==> s.take(j).filter(f)[k] == s.take(i).filter(f)[k],
    decreases j - i,
{
    if j > i {
        lemma_filter_prefix(s, f, i, j - 1);
        assert(s.take(j) =~= s.take(j - 1).push(s[j - 1]));
        s.take(j - 1).lemma_filter_push(s[j - 1], f);
    }
}

/// Re-encrypts, under `new_key_id`, every active credential encrypted under
/// `old_key_id`, in order; with the rotation's id. Succeeds exactly when
/// every such credential can be re-encrypted; otherwise fails on the first
/// that cannot.
fn rotate_records(records: &Vec<CredentialInfo>, old_key_id: &str, new_key_id: &str, started: u64) -> (r: Result<(String, Vec<RotatedCredential>), CredentialError>)
    ensures
        (r is Ok) == (forall|k: int| 0 <= k < rotation_candidates(records@, old_key_id@).len()
            ==> rotation_ok(#[trigger] rotation_candidates(records@, old_key_id@)[k])),
        r matches Ok((id, rotated)) ==> {
            let cands = rotation_candidates(records@, old_key_id@);
            &&& id@ == rotation_id_at(started)
            &&& rotated@.len() == cands.len()
            &&& forall|i: int| 0 <= i < cands.len() ==> rotated_from(#[trigger] rotated@[i], cands[i], new_key_id@, started, i)
        },
        r matches Err(e) ==> exists|k: int| {
            &&& 0 <= k < rotation_candidates(records@, old_key_id@).len()
            &&& !rotation_ok(#[trigger] rotation_candidates(records@, old_key_id@)[k])
            &&& forall|j: int| 0 <= j < k ==> rotation_ok(#[trigger] rotation_candidates(records@, old_key_id@)[j])
            &&& rotation_error(rotation_candidates(records@, old_key_id@)[k], e)
        },
{
    let ghost f = |c: CredentialInfo| c.active && opt_str_view(c.key_id) == Some(old_key_id@);
    let old_key = old_key_id.to_owned();
    let mut out: Vec<RotatedCredential> = Vec::new();
    let mut idx: u64 = 0;
    let mut i: usize = 0;
    while i < records.len()
        invariant
            i <= records@.len(),
            old_key@ == old_key_id@,
            f == (|c: CredentialInfo| c.active && opt_str_view(c.key_id) == Some(old_key_id@)),
            out@.len() == records@.take(i as int).filter(f).len(),
            idx == out@.len(),
            idx <= i,
            forall|k: int| 0 <= k < out@.len() ==> rotated_from(#[trigger] out@[k], records@.take(i as int).filter(f)[k], new_key_id@, started, k),
            forall|k: int| 0 <= k < out@.len() ==> rotation_ok(#[trigger] records@.take(i as int).filter(f)[k]),
        decreases records@.len() - i,
    {
        let c = &records[i];
        let ghost prev = records@.take(i as int).filter(f);
        proof {
            assert(records@.take(i + 1) =~= records@.take(i as int).push(records@[i as int]));
            records@.take(i as int).lemma_filter_push(records@[i as int], f);
        }
        let candidate = c.active && match &c.key_id {
            Some(k) => *k == old_key,
            None => false,
        };
        if candidate {
            proof {
                let now = records@.take(i + 1).filter(f);
                assert(now == prev.push(records@[i as int]));
                lemma_filter_prefix(records@, f, i + 1, records@.len() as int);
                assert(records@.take(records@.len() as int) =~= records@);
                let cands = rotation_candidates(records@, old_key_id@);
                assert(cands[prev.len() as int] == now[prev.len() as int]);
                assert forall|j: int| 0 <= j < prev.len() implies cands[j] == prev[j] by {
                    assert(now[j] == prev[j]);
                }
            }
            let at = match c.encrypted_at_ms {
                Some(at) => at,
                None => {
                    let mut v: Vec<char> = Vec::new();
                    push_str(&mut v, "credential ");
                    push_str(&mut v, c.id.as_str());
                    push_str(&mut v, " missing encrypted_at_ms");
                    let e = CredentialError::Internal(string_from_chars(v.as_slice()));
                    proof {
                        let cands = rotation_candidates(records@, old_key_id@);
                        let k = prev.len() as int;
                        assert(!rotation_ok(cands[k]));
                        assert(rotation_error(cands[k], e));
                        assert forall|j: int| 0 <= j < k implies rotation_ok(#[trigger] cands[j]) by {
                            assert(cands[j] == prev[j]);
                        }
                    }
                    return Err(e);
                },
            };
            let text = match decrypt_value(c.tenant_id.as_str(), c.provider_id.as_str(), c.encrypted_value.as_slice(), own_opt(&c.key_id), at) {
                Ok(t) => t,
                Err(e) => {
                    proof {
                        let cands = rotation_candidates(records@, old_key_id@);
                        let k = prev.len() as int;
                        assert(!rotation_ok(cands[k]));
                        assert(rotation_error(cands[k], e));
                        assert forall|j: int| 0 <= j < k implies rotation_ok(#[trigger] cands[j]) by {
                            assert(cands[j] == prev[j]);
                        }
                    }
                    return Err(e);
                },
            };
            let when = started.saturating_add(idx);
            let value = match encrypt_value(c.tenant_id.as_str(), c.provider_id.as_str(), text.as_str(), Some(new_key_id), when) {
                Ok(v) => v,
                Err(e) => {
                    proof {
                        let cands = rotation_candidates(records@, old_key_id@);
                        let k = prev.len() as int;
                        assert(!rotation_ok(cands[k]));
                        assert(rotation_error(cands[k], e));
                        assert forall|j: int| 0 <= j < k implies rotation_ok(#[trigger] cands[j]) by {
                            assert(cands[j] == prev[j]);
                        }
                    }
                    return Err(e);
                },
            };
            let key_version = match &c.key_version {
                Some(v) => v.clone(),
                None => "v1".to_owned(),
            };
            let rc = RotatedCredential {
                credential_id: c.id.clone(),
                tenant_id: c.tenant_id.clone(),
                provider_id: c.provider_id.clone(),
                encrypted_value: value,
                key_version,
                encrypted_at_ms: when,
            };
            proof {
                let now = records@.take(i + 1).filter(f);
                assert(now == prev.push(records@[i as int]));
                assert(rotated_at(started, idx as int) == when);
                assert(rotated_from(rc, records@[i as int], new_key_id@, started, idx as int));
            }
            let ghost before = out@;
            out.push(rc);
            idx = idx + 1;
            proof {
                let now = records@.take(i + 1).filter(f);
                assert forall|k: int| 0 <= k < out@.len() implies rotated_from(#[trigger] out@[k], now[k], new_key_id@, started, k) by {
                    if k < prev.len() {
                        assert(now[k] == prev[k]);
                        assert(out@[k] == before[k]);
                    }
                }
                assert(rotation_ok(records@[i as int]));
                assert forall|k: int| 0 <= k < out@.len() implies rotation_ok(#[trigger] now[k]) by {
                    if k < prev.len() {
                        assert(now[k] == prev[k]);
                    }
                }
            }
        }
        i = i + 1;
    }
    assert(records@.take(records@.len() as int) =~= records@);
    Ok((prefixed("credrot_", started), out))
}

/// Rotates the key of a tenant's credentials (`records`, as the tenant's
/// credentials read): refused with `NotFound` for a tenant that does not
/// exist; otherwise re-encrypts, under `new_key_id`, every active credential
/// encrypted under `old_key_id`, in order, and gives the rotation's id.
/// Succeeds exactly when every such credential can be re-encrypted;
/// otherwise fails on the first that cannot.
pub fn rotate_key(
    tenant_id: &str,
    tenant_exists: bool,
    records: &Vec<CredentialInfo>,
    old_key_id: &str,
    new_key_id: &str,
    started: u64,
) -> (r: Result<(String, Vec<RotatedCredential>), CredentialError>)
    ensures
        !tenant_exists ==> (r matches Err(CredentialError::NotFound { entity, id }) && entity@ == "tenant"@ && id@ == tenant_id@),
        (r is Ok) == (tenant_exists && forall|k: int| 0 <= k < rotation_candidates(records@, old_key_id@).len()
            ==> rotation_ok(#[trigger] rotation_candidates(records@, old_key_id@)[k])),
        r matches Ok((id, rotated)) ==> {
            let cands = rotation_candidates(records@, old_key_id@);
            &&& id@ == rotation_id_at(started)
            &&& rotated@.len() == cands.len()
            &&& forall|i: int| 0 <= i < cands.len() ==> rotated_from(#[trigger] rotated@[i], cands[i], new_key_id@, started, i)
        },
        tenant_exists ==> (r matches Err(e) ==> exists|k: int| {
            &&& 0 <= k < rotation_candidates(records@, old_key_id@).len()
            &&& !rotation_ok(#[trigger] rotation_candidates(records@, old_key_id@)[k])
            &&& forall|j: int| 0 <= j < k ==> rotation_ok(#[trigger] rotation_candidates(records@, old_key_id@)[j])
            &&& rotation_error(rotation_candidates(records@, old_key_id@)[k], e)
        }),
{
    if !tenant_exists {
        return Err(CredentialError::NotFound { entity: "tenant".to_owned(), id: tenant_id.to_owned() });
    }
    rotate_records(records, old_key_id, new_key_id, started)
}

} // verus!
