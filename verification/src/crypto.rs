//! The cryptographic layer: Argon2id key derivation, AES-256-GCM sealing,
//! wrapping of the vault key, and the XOR scheme of the legacy format.
//!
//! A random vault key encrypts every record password. The vault key is
//! wrapped once under each of several key-encryption keys, which are derived
//! from the master password, the machine code and the answers to security
//! questions; any one of them opens the vault.
use crate::b64::{
    base64_decode, base64_encode, decoded, encoded, in_alphabet, law_decoded_encoded,
    law_encoded_in_alphabet, law_encoded_injective,
};
use crate::text::{
    holds, joined, law_holds_between, law_split_joins, split, split_on, split_on_last_piece,
    split_on_without, text_from_utf8, views,
};
use aes_gcm::aead::{Aead, KeyInit};
use aes_gcm::{Aes256Gcm, Nonce};
use argon2::{Algorithm, Argon2, Params, Version};
use rand::rngs::SysRng;
use rand::TryRng;
use vstd::prelude::*;
use vstd::string::*;
use vstd::utf8::*;
use zeroize::Zeroize;

verus! {

pub const SALT_LEN: usize = 16;

pub const KEY_LEN: usize = 32;

pub const NONCE_LEN: usize = 12;

/// The length of the tag at the end of a ciphertext.
pub const TAG_LEN: usize = 16;

/// The XOR key of the legacy format.
pub const LEGACY_XOR_KEY: [u8; 11] = [70, 117, 99, 107, 85, 68, 111, 117, 66, 97, 111];

/// Argon2id costs: 19 MiB of memory, two passes, one lane.
pub const ARGON2_M_COST: u32 = 19_456;

pub const ARGON2_T_COST: u32 = 2;

pub const ARGON2_P_COST: u32 = 1;

/// Declares `argon2::Error`.
#[verifier::external_type_specification]
#[verifier::external_body]
pub struct ExArgon2Error(argon2::Error);

/// Why no key was derived.
#[derive(Debug)]
pub enum DeriveError {
    /// Argon2 does not take the costs, the secret or the salt.
    Refused(argon2::Error),
    /// The machine has not the memory.
    OutOfMemory(argon2::Error),
}

/// Why a cryptographic operation failed.
#[derive(Debug)]
pub enum CryptoError {
    Argon2(DeriveError),
    Base64(base64::DecodeError),
    Aead,
    MachineId(String),
    BadFormat(String),
    /// The credential is wrong or the data is damaged.
    WrongSecret,
}

/// What a `CryptoError` says, with the outside errors left out.
pub enum Fault {
    /// No key was derived, for want of memory or because Argon2 does not take
    /// the inputs.
    Argon2 { no_memory: bool },
    Base64,
    Aead,
    MachineId(Seq<char>),
    BadFormat(Seq<char>),
    WrongSecret,
}

impl View for CryptoError {
    type V = Fault;

    open spec fn view(&self) -> Fault {
        match self {
            CryptoError::Argon2(DeriveError::Refused(_)) => Fault::Argon2 { no_memory: false },
            CryptoError::Argon2(DeriveError::OutOfMemory(_)) => Fault::Argon2 { no_memory: true },
            CryptoError::Base64(_) => Fault::Base64,
            CryptoError::Aead => Fault::Aead,
            CryptoError::MachineId(m) => Fault::MachineId(m@),
            CryptoError::BadFormat(m) => Fault::BadFormat(m@),
            CryptoError::WrongSecret => Fault::WrongSecret,
        }
    }
}

/// The message shown for an error, where `detail` is the text of the outside
/// error in it, if it holds one.
pub open spec fn fault_message(fault: Fault, detail: Seq<char>) -> Seq<char> {
    match fault {
        Fault::Argon2 { .. } => "密钥派生失败："@ + detail,
        Fault::Base64 => "Base64 解码失败："@ + detail,
        Fault::Aead => "加解密失败"@,
        Fault::MachineId(m) => "无法读取机器码："@ + m,
        Fault::BadFormat(m) => "密文格式错误："@ + m,
        Fault::WrongSecret => "凭据错误或数据损坏"@,
    }
}

impl CryptoError {
    /// Whether `detail` is the text of the outside error that `self` holds.
    pub open spec fn has_detail(&self, detail: String) -> bool {
        match self {
            CryptoError::Argon2(DeriveError::Refused(e)) => to_string_from_display_ensures(
                e,
                detail,
            ),
            CryptoError::Argon2(DeriveError::OutOfMemory(e)) => to_string_from_display_ensures(
                e,
                detail,
            ),
            CryptoError::Base64(e) => to_string_from_display_ensures(e, detail),
            _ => true,
        }
    }

    /// Whether `text` is the message of this error.
    pub open spec fn is_message(&self, text: Seq<char>) -> bool {
        exists|detail: String| #[trigger]
            self.has_detail(detail) && text == fault_message(self@, detail@)
    }

    /// The message of this error.
    pub fn message(&self) -> (r: String)
        ensures
            self.is_message(r@),
    {
        let mut out = String::new();
        let mut detail = String::new();
        match self {
            CryptoError::Argon2(DeriveError::Refused(e)) => {
                out.append("密钥派生失败：");
                detail = e.to_string();
                out.append(detail.as_str());
            },
            CryptoError::Argon2(DeriveError::OutOfMemory(e)) => {
                out.append("密钥派生失败：");
                detail = e.to_string();
                out.append(detail.as_str());
            },
            CryptoError::Base64(e) => {
                out.append("Base64 解码失败：");
                detail = e.to_string();
                out.append(detail.as_str());
            },
            CryptoError::Aead => out.append("加解密失败"),
            CryptoError::MachineId(m) => {
                out.append("无法读取机器码：");
                out.append(m.as_str());
            },
            CryptoError::BadFormat(m) => {
                out.append("密文格式错误：");
                out.append(m.as_str());
            },
            CryptoError::WrongSecret => out.append("凭据错误或数据损坏"),
        }
        proof {
            assert(self.has_detail(detail));
            assert(out@ == fault_message(self@, detail@));
        }
        out
    }
}

/// A result with text or bytes and errors taken by their views.
pub open spec fn outcome<T: View>(r: Result<T, CryptoError>) -> Result<T::V, Fault> {
    match r {
        Ok(t) => Ok(t@),
        Err(e) => Err(e@),
    }
}

/// Calls `TryRng::try_fill_bytes` of the system generator. Nothing is claimed
/// of the bytes. The call does not return where the system has no entropy
/// source.
#[verifier::external_body]
fn random_bytes<const N: usize>() -> (r: [u8; N]) {
    let mut bytes = [0u8; N];
    SysRng.try_fill_bytes(&mut bytes).expect("无法获取系统随机数（系统熵源不可用）");
    bytes
}

/// Whether these bytes are what a draw from the system generator gave: a
/// nonce, a salt or a key.
pub closed spec fn drawn(b: Seq<u8>) -> bool {
    ||| exists|r: [u8; 12]| #[trigger] call_ensures(random_bytes::<12>, (), r) && r@ == b
    ||| exists|r: [u8; 16]| #[trigger] call_ensures(random_bytes::<16>, (), r) && r@ == b
    ||| exists|r: [u8; 32]| #[trigger] call_ensures(random_bytes::<32>, (), r) && r@ == b
}

/// Calls `Zeroize::zeroize` on the bytes of a key. What is claimed of it:
/// every byte is zero afterwards.
#[verifier::external_body]
fn wipe(bytes: &mut [u8; 32])
    ensures
        final(bytes)@ == Seq::new(32, |i: int| 0u8),
    opens_invariants none
    no_unwind
{
    bytes.zeroize();
}

/// The vault key: 32 bytes, wiped when dropped.
pub struct VaultKey([u8; 32]);

impl View for VaultKey {
    type V = Seq<u8>;

    closed spec fn view(&self) -> Seq<u8> {
        self.0@
    }
}

impl VaultKey {
    /// A fresh random key.
    pub fn generate() -> (r: VaultKey)
        ensures
            r@.len() == KEY_LEN,
            drawn(r@),
    {
        VaultKey(random_bytes::<32>())
    }

    pub fn from_bytes(k: [u8; 32]) -> (r: VaultKey)
        ensures
            r@ == k@,
    {
        VaultKey(k)
    }

    pub fn as_bytes(&self) -> (r: &[u8; 32])
        ensures
            r@ == self@,
    {
        &self.0
    }
}

impl Drop for VaultKey {
    fn drop(&mut self)
        ensures
            final(self)@ == Seq::new(32, |i: int| 0u8),
        opens_invariants none
        no_unwind
    {
        wipe(&mut self.0);
    }
}

/// A fresh random salt.
pub fn generate_salt() -> (r: [u8; 16])
    ensures
        r@.len() == SALT_LEN,
        drawn(r@),
{
    random_bytes::<16>()
}

/// Base64 text of the bytes.
pub fn encode_b64(bytes: &[u8]) -> (r: String)
    ensures
        r@ == encoded(bytes@),
{
    base64_encode(bytes)
}

/// What decoding Base64 text gives.
pub open spec fn b64_outcome(s: Seq<char>) -> Result<Seq<u8>, Fault> {
    match decoded(s) {
        Some(b) => Ok(b),
        None => Err(Fault::Base64),
    }
}

/// The bytes that Base64 text stands for.
pub fn decode_b64(s: &str) -> (r: Result<Vec<u8>, CryptoError>)
    ensures
        outcome(r) == b64_outcome(s@),
{
    match base64_decode(s) {
        Ok(b) => {
            proof {
                law_decoded_encoded(b@);
            }
            Ok(b)
        },
        Err(e) => Err(CryptoError::Base64(e)),
    }
}

/// The 32 bytes that Argon2id, version 0x13, derives under the given memory,
/// time and lane costs.
pub uninterp spec fn argon2id(
    m_cost: u32,
    t_cost: u32,
    p_cost: u32,
    secret: Seq<u8>,
    salt: Seq<u8>,
) -> Seq<u8>;

/// Whether Argon2 takes these costs.
pub open spec fn argon2_takes_costs(m_cost: u32, t_cost: u32, p_cost: u32) -> bool {
    &&& m_cost >= 8
    &&& m_cost >= 8 * p_cost
    &&& t_cost >= 1
    &&& 1 <= p_cost <= 0xff_ffff
}

/// Whether Argon2 takes this password and salt.
pub open spec fn argon2_takes_inputs(secret: Seq<u8>, salt: Seq<u8>) -> bool {
    &&& secret.len() <= 0xffff_ffff
    &&& 8 <= salt.len() <= 0xffff_ffff
}

/// Calls `Argon2::hash_password_into` with Argon2id, version 0x13, for 32
/// bytes. What is claimed of it: it fails on costs, passwords or salts that
/// Argon2 does not take, and on others only for want of memory, of which
/// `Error::OutOfMemory` tells; where it succeeds, the result depends on the
/// arguments alone. Whether there is the memory depends on the machine, so
/// success is not claimed.
#[verifier::external_body]
fn argon2id_hash(m_cost: u32, t_cost: u32, p_cost: u32, secret: &[u8], salt: &[u8]) -> (r: Result<
    [u8; 32],
    DeriveError,
>)
    ensures
        match r {
            Ok(k) => {
                &&& argon2_takes_costs(m_cost, t_cost, p_cost)
                &&& argon2_takes_inputs(secret@, salt@)
                &&& k@ == argon2id(m_cost, t_cost, p_cost, secret@, salt@)
            },
            Err(DeriveError::Refused(_)) => !(argon2_takes_costs(m_cost, t_cost, p_cost)
                && argon2_takes_inputs(secret@, salt@)),
            Err(DeriveError::OutOfMemory(_)) => argon2_takes_costs(m_cost, t_cost, p_cost),
        },
{
    let mut out = [0u8; 32];
    let params = match Params::new(m_cost, t_cost, p_cost, Some(out.len())) {
        Ok(params) => params,
        Err(e) => return Err(DeriveError::Refused(e)),
    };
    let argon2 = Argon2::new(Algorithm::Argon2id, Version::V0x13, params);
    match argon2.hash_password_into(secret, salt, &mut out) {
        Ok(()) => Ok(out),
        Err(e @ argon2::Error::OutOfMemory) => Err(DeriveError::OutOfMemory(e)),
        Err(e) => Err(DeriveError::Refused(e)),
    }
}

/// The key-encryption key of a secret under a salt.
pub open spec fn kek(secret: Seq<u8>, salt: Seq<u8>) -> Seq<u8> {
    argon2id(ARGON2_M_COST, ARGON2_T_COST, ARGON2_P_COST, secret, salt)
}

/// Whether `r` is what deriving the key-encryption key of a secret under a
/// salt comes to.
pub open spec fn derives(secret: Seq<u8>, salt: Seq<u8>, r: Result<[u8; 32], CryptoError>) -> bool {
    match r {
        Ok(k) => argon2_takes_inputs(secret, salt) && k@ == kek(secret, salt),
        Err(e) => is_refusal(secret, salt, e@),
    }
}

/// Whether `fault` tells why no key was derived: for want of memory, unless
/// Argon2 does not take the secret or the salt.
pub open spec fn is_refusal(secret: Seq<u8>, salt: Seq<u8>, fault: Fault) -> bool {
    fault matches Fault::Argon2 { no_memory } && (argon2_takes_inputs(secret, salt) ==> no_memory)
}

/// Whether `r` is what one derivation from this secret under this salt, with
/// the costs of the vault, came to.
pub closed spec fn derivation(
    secret: Seq<u8>,
    salt: Seq<u8>,
    r: Result<[u8; 32], CryptoError>,
) -> bool {
    exists|a: &[u8], b: &[u8], d: Result<[u8; 32], DeriveError>|
        a@ == secret && b@ == salt && #[trigger] call_ensures(
            argon2id_hash,
            (ARGON2_M_COST, ARGON2_T_COST, ARGON2_P_COST, a, b),
            d,
        ) && r == match d {
            Ok(k) => Ok::<[u8; 32], CryptoError>(k),
            Err(e) => Err(CryptoError::Argon2(e)),
        }
}

/// A derivation gives the key-encryption key of the secret under the salt, or
/// fails for want of memory, unless Argon2 does not take the inputs.
pub proof fn law_derivation_derives(
    secret: Seq<u8>,
    salt: Seq<u8>,
    r: Result<[u8; 32], CryptoError>,
)
    requires
        derivation(secret, salt, r),
    ensures
        derives(secret, salt, r),
{
}

/// Two derivations from the same secret and salt agree where both succeed, and
/// where only one succeeds the other failed for want of memory.
pub proof fn law_derivation_determined(
    secret: Seq<u8>,
    salt: Seq<u8>,
    a: Result<[u8; 32], CryptoError>,
    b: Result<[u8; 32], CryptoError>,
)
    requires
        derives(secret, salt, a),
        derives(secret, salt, b),
    ensures
        a is Ok && b is Ok ==> a->Ok_0@ == b->Ok_0@,
        a is Ok && b is Err ==> b->Err_0@ == (Fault::Argon2 { no_memory: true }),
        a is Err && b is Ok ==> a->Err_0@ == (Fault::Argon2 { no_memory: true }),
{
}

/// Derives the key-encryption key of a secret under a salt. It fails on a
/// salt of fewer than eight bytes, on a secret or salt of 2^32 bytes or more,
/// and where the machine has not the memory to derive it.
pub fn derive_kek(secret: &[u8], salt: &[u8]) -> (r: Result<[u8; 32], CryptoError>)
    ensures
        derives(secret@, salt@, r),
        derivation(secret@, salt@, r),
{
    match argon2id_hash(ARGON2_M_COST, ARGON2_T_COST, ARGON2_P_COST, secret, salt) {
        Ok(k) => Ok(k),
        Err(e) => Err(CryptoError::Argon2(e)),
    }
}

/// The ciphertext, tag included, that AES-256-GCM gives.
pub uninterp spec fn gcm_sealed(key: Seq<u8>, nonce: Seq<u8>, plain: Seq<u8>) -> Seq<u8>;

/// The plaintext that AES-256-GCM accepts a ciphertext as, if it accepts it.
pub uninterp spec fn gcm_opened(key: Seq<u8>, nonce: Seq<u8>, sealed: Seq<u8>) -> Option<Seq<u8>>;

/// The longest plaintext that AES-GCM takes.
pub open spec fn gcm_max_plain() -> nat {
    68_719_476_704
}

/// Calls `Aead::encrypt` of `Aes256Gcm` without associated data. What is
/// claimed of it: it fails on plaintexts that are too long, and on no others;
/// the ciphertext depends on the arguments alone, is 16 bytes longer than the
/// plaintext, and is accepted back as that plaintext.
#[verifier::external_body]
fn gcm_encrypt(key: &[u8; 32], nonce: &[u8; 12], plain: &[u8]) -> (r: Option<Vec<u8>>)
    ensures
        r is Some <==> plain@.len() <= gcm_max_plain(),
        r matches Some(c) ==> {
            &&& c@ == gcm_sealed(key@, nonce@, plain@)
            &&& c@.len() == plain@.len() + 16
            &&& gcm_opened(key@, nonce@, c@) == Some(plain@)
        },
{
    let cipher = Aes256Gcm::new_from_slice(key).ok()?;
    let nonce = Nonce::try_from(&nonce[..]).ok()?;
    cipher.encrypt(&nonce, plain).ok()
}

/// Calls `Aead::decrypt` of `Aes256Gcm` without associated data. What is
/// claimed of it: whether a ciphertext is accepted, and as what, depends on
/// the arguments alone, and one that is accepted is the ciphertext of the
/// plaintext it is accepted as.
#[verifier::external_body]
fn gcm_decrypt(key: &[u8; 32], nonce: &[u8], sealed: &[u8]) -> (r: Option<Vec<u8>>)
    requires
        nonce@.len() == 12,
    ensures
        match r {
            Some(p) => {
                &&& gcm_opened(key@, nonce@, sealed@) == Some(p@)
                &&& sealed@ == gcm_sealed(key@, nonce@, p@)
                &&& sealed@.len() == p@.len() + 16
            },
            None => gcm_opened(key@, nonce@, sealed@) is None,
        },
{
    let cipher = Aes256Gcm::new_from_slice(key).ok()?;
    let nonce = Nonce::try_from(nonce).ok()?;
    cipher.decrypt(&nonce, sealed).ok()
}

/// What sealing under a given nonce gives.
pub open spec fn seal_outcome(key: Seq<u8>, nonce: Seq<u8>, plain: Seq<u8>) -> Result<
    Seq<u8>,
    Fault,
> {
    if plain.len() <= gcm_max_plain() {
        Ok(gcm_sealed(key, nonce, plain))
    } else {
        Err(Fault::Aead)
    }
}

/// Seals a plaintext under a given nonce.
pub fn seal_with(key: &[u8; 32], nonce: &[u8; 12], plaintext: &[u8]) -> (r: Result<
    Vec<u8>,
    CryptoError,
>)
    ensures
        outcome(r) == seal_outcome(key@, nonce@, plaintext@),
        r matches Ok(ct) ==> open_outcome(key@, nonce@, ct@) == Ok::<Seq<u8>, Fault>(plaintext@),
        r matches Ok(ct) ==> ct@.len() == plaintext@.len() + TAG_LEN,
{
    match gcm_encrypt(key, nonce, plaintext) {
        Some(ct) => Ok(ct),
        None => Err(CryptoError::Aead),
    }
}

/// Seals a plaintext under a fresh random nonce, and gives both.
pub fn seal(key: &[u8; 32], plaintext: &[u8]) -> (r: Result<([u8; 12], Vec<u8>), CryptoError>)
    ensures
        match r {
            Ok((nonce, ct)) => {
                &&& seal_outcome(key@, nonce@, plaintext@) == Ok::<Seq<u8>, Fault>(ct@)
                &&& open_outcome(key@, nonce@, ct@) == Ok::<Seq<u8>, Fault>(plaintext@)
                &&& ct@.len() == plaintext@.len() + TAG_LEN
                &&& drawn(nonce@)
            },
            Err(e) => e@ == Fault::Aead,
        },
        r is Ok <==> plaintext@.len() <= gcm_max_plain(),
{
    let nonce = random_bytes::<12>();
    match seal_with(key, &nonce, plaintext) {
        Ok(ct) => Ok((nonce, ct)),
        Err(e) => Err(e),
    }
}

/// What opening a ciphertext gives; one that is too short for a tag is not
/// accepted.
pub open spec fn open_outcome(key: Seq<u8>, nonce: Seq<u8>, sealed: Seq<u8>) -> Result<
    Seq<u8>,
    Fault,
> {
    if nonce.len() != NONCE_LEN {
        Err(Fault::BadFormat("nonce 长度错误"@))
    } else if sealed.len() < TAG_LEN {
        Err(Fault::WrongSecret)
    } else {
        match gcm_opened(key, nonce, sealed) {
            Some(plain) => Ok(plain),
            None => Err(Fault::WrongSecret),
        }
    }
}

/// Opens a ciphertext; one that is not accepted gives `WrongSecret`.
pub fn open(key: &[u8; 32], nonce: &[u8], ct: &[u8]) -> (r: Result<Vec<u8>, CryptoError>)
    ensures
        outcome(r) == open_outcome(key@, nonce@, ct@),
        r matches Ok(p) ==> ct@ == gcm_sealed(key@, nonce@, p@) && ct@.len() == p@.len() + TAG_LEN,
{
    if nonce.len() != NONCE_LEN {
        return Err(CryptoError::BadFormat("nonce 长度错误".to_owned()));
    }
    match gcm_decrypt(key, nonce, ct) {
        Some(p) => Ok(p),
        None => Err(CryptoError::WrongSecret),
    }
}

/// The text of a wrapped key: salt, nonce and ciphertext, each in Base64,
/// with dots between them.
pub open spec fn wrapped_text(salt: Seq<u8>, nonce: Seq<u8>, ct: Seq<u8>) -> Seq<char> {
    (encoded(salt).push('.') + encoded(nonce)).push('.') + encoded(ct)
}

/// The text of an encrypted password: nonce and ciphertext, each in Base64,
/// with a dot between them.
pub open spec fn blob_text(nonce: Seq<u8>, ct: Seq<u8>) -> Seq<char> {
    encoded(nonce).push('.') + encoded(ct)
}

/// The salt, nonce and ciphertext in the text of a wrapped key.
pub open spec fn wrapped_parts(wrapped: Seq<char>) -> Result<
    (Seq<u8>, Seq<u8>, Seq<u8>),
    Fault,
> {
    let parts = split_on(wrapped, '.');
    if parts.len() != 3 {
        Err(Fault::BadFormat("封包应含三段"@))
    } else {
        match (decoded(parts[0]), decoded(parts[1]), decoded(parts[2])) {
            (Some(salt), Some(nonce), Some(ct)) => Ok((salt, nonce, ct)),
            _ => Err(Fault::Base64),
        }
    }
}

/// The nonce and ciphertext in the text of an encrypted password.
pub open spec fn blob_parts(blob: Seq<char>) -> Result<(Seq<u8>, Seq<u8>), Fault> {
    let parts = split_on(blob, '.');
    if parts.len() != 2 {
        Err(Fault::BadFormat("密文应含两段"@))
    } else {
        match (decoded(parts[0]), decoded(parts[1])) {
            (Some(nonce), Some(ct)) => Ok((nonce, ct)),
            _ => Err(Fault::Base64),
        }
    }
}

proof fn encoded_without_dot(b: Seq<u8>)
    ensures
        !encoded(b).contains('.'),
{
    law_encoded_in_alphabet(b);
    if encoded(b).contains('.') {
        let i = choose|i: int| 0 <= i < encoded(b).len() && encoded(b)[i] == '.';
        assert(in_alphabet(encoded(b)[i]));
    }
}

/// The text of a wrapped key gives back its parts.
pub proof fn law_wrapped_text_splits(salt: Seq<u8>, nonce: Seq<u8>, ct: Seq<u8>)
    ensures
        wrapped_parts(wrapped_text(salt, nonce, ct)) == Ok::<_, Fault>((salt, nonce, ct)),
{
    encoded_without_dot(salt);
    encoded_without_dot(nonce);
    encoded_without_dot(ct);
    split_on_without(encoded(salt), '.');
    split_on_last_piece(encoded(salt), '.', encoded(nonce));
    split_on_last_piece(encoded(salt).push('.') + encoded(nonce), '.', encoded(ct));
    law_decoded_encoded(salt);
    law_decoded_encoded(nonce);
    law_decoded_encoded(ct);
}

/// The text of an encrypted password gives back its parts.
pub proof fn law_blob_text_splits(nonce: Seq<u8>, ct: Seq<u8>)
    ensures
        blob_parts(blob_text(nonce, ct)) == Ok::<_, Fault>((nonce, ct)),
{
    encoded_without_dot(nonce);
    encoded_without_dot(ct);
    split_on_without(encoded(nonce), '.');
    split_on_last_piece(encoded(nonce), '.', encoded(ct));
    law_decoded_encoded(nonce);
    law_decoded_encoded(ct);
}

/// Text that has the parts of a wrapped key is the text of those parts.
pub proof fn law_wrapped_parts_rewrite(wrapped: Seq<char>)
    ensures
        wrapped_parts(wrapped) matches Ok((salt, nonce, ct)) ==> wrapped == wrapped_text(
            salt,
            nonce,
            ct,
        ),
{
    let parts = split_on(wrapped, '.');
    law_split_joins(wrapped, '.');
    if parts.len() == 3 {
        let two = parts.drop_last();
        assert(joined(two.drop_last(), '.') == parts[0]);
        assert(joined(two, '.') == parts[0].push('.') + parts[1]);
    }
}

/// Text that has the parts of an encrypted password is the text of those
/// parts.
pub proof fn law_blob_parts_rewrite(blob: Seq<char>)
    ensures
        blob_parts(blob) matches Ok((nonce, ct)) ==> blob == blob_text(nonce, ct),
{
    let parts = split_on(blob, '.');
    law_split_joins(blob, '.');
    if parts.len() == 2 {
        assert(joined(parts.drop_last(), '.') == parts[0]);
    }
}

/// What unwrapping gives once the key-encryption key is known.
pub open spec fn unwrap_outcome(kek: Seq<u8>, nonce: Seq<u8>, ct: Seq<u8>) -> Result<
    Seq<u8>,
    Fault,
> {
    match open_outcome(kek, nonce, ct) {
        Ok(k) => if k.len() == KEY_LEN {
            Ok(k)
        } else {
            Err(Fault::BadFormat("密钥长度错误"@))
        },
        Err(f) => Err(f),
    }
}

/// What unwrapping a key gives, where the key-encryption key can be derived.
pub open spec fn unwrapped(secret: Seq<u8>, wrapped: Seq<char>) -> Result<Seq<u8>, Fault> {
    match wrapped_parts(wrapped) {
        Ok((salt, nonce, ct)) => if argon2_takes_inputs(secret, salt) {
            unwrap_outcome(kek(secret, salt), nonce, ct)
        } else {
            Err(Fault::Argon2 { no_memory: false })
        },
        Err(f) => Err(f),
    }
}

/// What decrypting a record password gives.
pub open spec fn decrypted(key: Seq<u8>, blob: Seq<char>) -> Result<Seq<char>, Fault> {
    match blob_parts(blob) {
        Ok((nonce, ct)) => match open_outcome(key, nonce, ct) {
            Ok(plain) => if valid_utf8(plain) {
                Ok(decode_utf8(plain))
            } else {
                Err(Fault::BadFormat("解密结果非 UTF-8"@))
            },
            Err(f) => Err(f),
        },
        Err(f) => Err(f),
    }
}

/// The text of a wrapped key has its parts in the order salt, nonce and
/// ciphertext, with dots between them; that of an encrypted password has the
/// nonce before the ciphertext.
pub proof fn law_texts_joined(salt: Seq<u8>, nonce: Seq<u8>, ct: Seq<u8>)
    ensures
        wrapped_text(salt, nonce, ct) == joined(
            seq![encoded(salt), encoded(nonce), encoded(ct)],
            '.',
        ),
        blob_text(nonce, ct) == joined(seq![encoded(nonce), encoded(ct)], '.'),
{
    let three = seq![encoded(salt), encoded(nonce), encoded(ct)];
    let two = three.drop_last();
    assert(joined(two.drop_last(), '.') == encoded(salt));
    assert(joined(two, '.') == encoded(salt).push('.') + encoded(nonce));
    let pair = seq![encoded(nonce), encoded(ct)];
    assert(joined(pair.drop_last(), '.') == encoded(nonce));
}

/// A key-encryption key costs 19 MiB of memory, two passes and one lane, and
/// comes from the whole secret and the whole salt.
pub proof fn law_kek_costs(secret: Seq<u8>, salt: Seq<u8>, r: Result<[u8; 32], CryptoError>)
    requires
        derivation(secret, salt, r),
    ensures
        kek(secret, salt) == argon2id(19_456, 2, 1, secret, salt),
        r matches Ok(k) ==> k@ == argon2id(19_456, 2, 1, secret, salt),
{
}

/// Sealing and opening leave out nothing that AES-GCM takes: a plaintext of up
/// to 2^36 - 32 bytes is sealed as it seals it, and whatever has a nonce of
/// twelve bytes and room for a tag is opened as it opens it.
pub proof fn law_sealing_total(key: Seq<u8>, nonce: Seq<u8>, text: Seq<u8>)
    ensures
        text.len() <= 68_719_476_704 ==> seal_outcome(key, nonce, text) == Ok::<Seq<u8>, Fault>(
            gcm_sealed(key, nonce, text),
        ),
        nonce.len() == 12 && text.len() >= 16 ==> open_outcome(key, nonce, text) == (
        match gcm_opened(key, nonce, text) {
            Some(plain) => Ok::<Seq<u8>, Fault>(plain),
            None => Err(Fault::WrongSecret),
        }),
{
}

/// Every password whose bytes AES-GCM takes can be encrypted.
pub proof fn law_encryptable(plain: Seq<char>)
    ensures
        encryptable(plain) <==> encode_utf8(plain).len() <= 68_719_476_704,
{
}

/// Decrypting reads the whole text and gives the whole password: it succeeds
/// exactly on the text of a nonce of twelve bytes and a ciphertext that opens
/// to the bytes of the password.
pub proof fn law_decrypted_whole(
    key: Seq<u8>,
    nonce: Seq<u8>,
    ct: Seq<u8>,
    plain: Seq<char>,
)
    requires
        nonce.len() == 12,
        ct.len() >= 16,
    ensures
        decrypted(key, blob_text(nonce, ct)) == Ok::<Seq<char>, Fault>(plain) <==> gcm_opened(
            key,
            nonce,
            ct,
        ) == Some(encode_utf8(plain)),
        gcm_opened(key, nonce, ct) is None ==> decrypted(key, blob_text(nonce, ct)) == Err::<
            Seq<char>,
            Fault,
        >(Fault::WrongSecret),
{
    law_blob_text_splits(nonce, ct);
    encode_utf8_valid_utf8(plain);
    encode_utf8_decode_utf8(plain);
    if let Some(bytes) = gcm_opened(key, nonce, ct) {
        if valid_utf8(bytes) {
            decode_utf8_encode_utf8(bytes);
        }
    }
}

/// Unwrapping reads the whole text: with a nonce of twelve bytes and a
/// ciphertext that opens, under the key of the whole secret, to the bytes of a
/// key, it gives that key.
pub proof fn law_unwrapped_whole(
    secret: Seq<u8>,
    salt: Seq<u8>,
    nonce: Seq<u8>,
    ct: Seq<u8>,
    key: Seq<u8>,
)
    requires
        nonce.len() == 12,
        ct.len() >= 16,
        key.len() == 32,
        secret.len() <= 0xffff_ffff,
        8 <= salt.len() <= 0xffff_ffff,
    ensures
        unwrapped(secret, wrapped_text(salt, nonce, ct)) == Ok::<Seq<u8>, Fault>(key)
            <==> gcm_opened(argon2id(19_456, 2, 1, secret, salt), nonce, ct) == Some(key),
{
    law_wrapped_text_splits(salt, nonce, ct);
}

/// Writes the text of a wrapped key.
pub fn write_wrapped(salt: &[u8], nonce: &[u8], ct: &[u8]) -> (r: String)
    ensures
        r@ == wrapped_text(salt@, nonce@, ct@),
{
    let mut out = encode_b64(salt);
    out.push('.');
    out.append(encode_b64(nonce).as_str());
    out.push('.');
    out.append(encode_b64(ct).as_str());
    out
}

/// Writes the text of an encrypted password.
pub fn write_blob(nonce: &[u8], ct: &[u8]) -> (r: String)
    ensures
        r@ == blob_text(nonce@, ct@),
{
    let mut out = encode_b64(nonce);
    out.push('.');
    out.append(encode_b64(ct).as_str());
    out
}

/// Wraps the vault key under a key-encryption key and a given nonce.
pub fn wrap_with(kek: &[u8; 32], nonce: &[u8; 12], vault_key: &[u8; 32], salt: &[u8]) -> (r: Result<
    String,
    CryptoError,
>)
    ensures
        r matches Ok(w) && w@ == wrapped_text(
            salt@,
            nonce@,
            gcm_sealed(kek@, nonce@, vault_key@),
        ),
        r matches Ok(w) ==> unwrap_outcome(
            kek@,
            nonce@,
            gcm_sealed(kek@, nonce@, vault_key@),
        ) == Ok::<Seq<u8>, Fault>(vault_key@),
        r matches Ok(w) ==> gcm_sealed(kek@, nonce@, vault_key@).len() == KEY_LEN + TAG_LEN,
{
    match seal_with(kek, nonce, vault_key) {
        Ok(ct) => Ok(write_wrapped(salt, nonce, ct.as_slice())),
        Err(e) => Err(e),
    }
}

/// Whether a wrapping under a secret and a salt comes to `r` by one
/// derivation: it succeeds where the derivation does, and else fails as it
/// does.
pub open spec fn wrapping_gave(
    secret: Seq<u8>,
    salt: Seq<u8>,
    r: Result<String, CryptoError>,
) -> bool {
    exists|d: Result<[u8; 32], CryptoError>| #[trigger]
        derivation(secret, salt, d) && match d {
            Ok(_) => r is Ok,
            Err(e) => r == Err::<String, CryptoError>(e),
        }
}

/// Wraps the vault key under a secret. The text unwraps, under the same
/// secret, to the same key. It fails only where the key-encryption key cannot
/// be derived.
pub fn wrap_key(secret: &[u8], vault_key: &[u8; 32], salt: &[u8]) -> (r: Result<
    String,
    CryptoError,
>)
    ensures
        match r {
            Ok(w) => {
                &&& argon2_takes_inputs(secret@, salt@)
                &&& is_wrapping(secret@, vault_key@, salt@, w@)
                &&& unwrapped(secret@, w@) == Ok::<Seq<u8>, Fault>(vault_key@)
                &&& wrapped_parts(w@) matches Ok((part, nonce, ct)) && part == salt@ && nonce.len()
                    == NONCE_LEN && ct.len() == KEY_LEN + TAG_LEN && drawn(nonce)
            },
            Err(e) => is_refusal(secret@, salt@, e@),
        },
        wrapping_gave(secret@, salt@, r),
{
    let derived = derive_kek(secret, salt);
    assert(derivation(secret@, salt@, derived));
    match derived {
        Ok(kek) => {
            let nonce = random_bytes::<12>();
            let r = wrap_with(&kek, &nonce, vault_key, salt);
            proof {
                law_wrapped_text_splits(salt@, nonce@, gcm_sealed(kek@, nonce@, vault_key@));
                assert(wraps_under(secret@, vault_key@, salt@, nonce@, r->Ok_0@));
            }
            r
        },
        Err(e) => Err(e),
    }
}

/// Whether `wrapped` wraps `vault_key` under `secret`, `salt` and `nonce`.
pub open spec fn wraps_under(
    secret: Seq<u8>,
    vault_key: Seq<u8>,
    salt: Seq<u8>,
    nonce: Seq<u8>,
    wrapped: Seq<char>,
) -> bool {
    let ct = gcm_sealed(kek(secret, salt), nonce, vault_key);
    &&& nonce.len() == NONCE_LEN
    &&& ct.len() == vault_key.len() + TAG_LEN
    &&& wrapped == wrapped_text(salt, nonce, ct)
}

/// Whether `wrapped` wraps `vault_key` under `secret`, `salt` and some nonce.
pub open spec fn is_wrapping(
    secret: Seq<u8>,
    vault_key: Seq<u8>,
    salt: Seq<u8>,
    wrapped: Seq<char>,
) -> bool {
    exists|nonce: Seq<u8>| wraps_under(secret, vault_key, salt, nonce, wrapped)
}

/// Unwraps the vault key once the key-encryption key is known.
pub fn unwrap_with(kek: &[u8; 32], nonce: &[u8], ct: &[u8]) -> (r: Result<[u8; 32], CryptoError>)
    ensures
        outcome(r) == unwrap_outcome(kek@, nonce@, ct@),
        r matches Ok(k) ==> ct@ == gcm_sealed(kek@, nonce@, k@) && ct@.len() == KEY_LEN + TAG_LEN,
{
    match open(kek, nonce, ct) {
        Ok(opened) => {
            if opened.len() != KEY_LEN {
                return Err(CryptoError::BadFormat("密钥长度错误".to_owned()));
            }
            let mut key: [u8; 32] = [0; 32];
            let mut i: usize = 0;
            while i < 32
                invariant
                    i <= 32,
                    opened@.len() == 32,
                    key@.len() == 32,
                    forall|j: int| 0 <= j < i ==> key@[j] == opened@[j],
                decreases 32 - i,
            {
                key[i] = opened[i];
                i += 1;
            }
            assert(key@ == opened@);
            Ok(key)
        },
        Err(e) => Err(e),
    }
}

/// What unwrapping gives once a derivation came to `d`.
pub open spec fn after_derivation(
    d: Result<[u8; 32], CryptoError>,
    nonce: Seq<u8>,
    ct: Seq<u8>,
) -> Result<Seq<u8>, Fault> {
    match d {
        Ok(kek) => unwrap_outcome(kek@, nonce, ct),
        Err(e) => Err(e@),
    }
}

/// Whether unwrapping under a secret comes to `r` by one derivation from that
/// secret under the salt in the text.
pub open spec fn unwrapping_gave(
    secret: Seq<u8>,
    wrapped: Seq<char>,
    r: Result<Seq<u8>, Fault>,
) -> bool {
    match wrapped_parts(wrapped) {
        Ok((salt, nonce, ct)) => exists|d: Result<[u8; 32], CryptoError>| #[trigger]
            derivation(secret, salt, d) && r == after_derivation(d, nonce, ct),
        Err(f) => r == Err::<Seq<u8>, Fault>(f),
    }
}

/// Whether a derivation from this secret under the salt in the text ran out of
/// memory.
pub open spec fn ran_out_of_memory(secret: Seq<u8>, wrapped: Seq<char>) -> bool {
    wrapped_parts(wrapped) matches Ok((salt, _, _)) && exists|e: CryptoError| #[trigger]
        derivation(secret, salt, Err(e)) && e@ == (Fault::Argon2 { no_memory: true })
}

/// Unwrapping gives what it should: the key under the right secret, and the
/// error that there is under any other. The one exception is a derivation
/// made for it that ran out of memory.
pub proof fn law_unwrapping_right(
    secret: Seq<u8>,
    wrapped: Seq<char>,
    r: Result<Seq<u8>, Fault>,
)
    requires
        unwrapping_gave(secret, wrapped, r),
    ensures
        r == unwrapped(secret, wrapped) || ran_out_of_memory(secret, wrapped),
        unwrapped(secret, wrapped) matches Ok(k) ==> r == Ok::<Seq<u8>, Fault>(k) || (
        ran_out_of_memory(secret, wrapped) && r == Err::<Seq<u8>, Fault>(
            (Fault::Argon2 { no_memory: true }),
        )),
        r matches Ok(k) ==> unwrapped(secret, wrapped) == Ok::<Seq<u8>, Fault>(k),
{
    if let Ok((salt, nonce, ct)) = wrapped_parts(wrapped) {
        let d = choose|d: Result<[u8; 32], CryptoError>| #[trigger]
            derivation(secret, salt, d) && r == after_derivation(d, nonce, ct);
        law_derivation_derives(secret, salt, d);
        match d {
            Ok(k) => {},
            Err(e) => {
                assert(derivation(secret, salt, Err(e)));
            },
        }
    }
}

/// Unwraps the vault key under a secret. The result is as `unwrapped` says,
/// but for an Argon2 error where the machine has not the memory to derive the
/// key-encryption key. Only a wrapping of a key under that secret gives it.
pub fn unwrap_key(secret: &[u8], wrapped: &str) -> (r: Result<[u8; 32], CryptoError>)
    ensures
        outcome(r) == unwrapped(secret@, wrapped@) || (wrapped_parts(wrapped@) is Ok && outcome(r)
            == Err::<Seq<u8>, Fault>((Fault::Argon2 { no_memory: true }))),
        r matches Ok(k) ==> wrapped_parts(wrapped@) matches Ok((salt, _, ct)) && is_wrapping(
            secret@,
            k@,
            salt,
            wrapped@,
        ) && ct.len() == KEY_LEN + TAG_LEN,
        unwrapping_gave(secret@, wrapped@, outcome(r)),
{
    let parts = split(wrapped, '.');
    assert(parts@.len() == split_on(wrapped@, '.').len());
    if parts.len() != 3 {
        return Err(CryptoError::BadFormat("封包应含三段".to_owned()));
    }
    assert(views(parts@)[0] == parts@[0]@ && views(parts@)[1] == parts@[1]@ && views(parts@)[2]
        == parts@[2]@);
    let salt = match decode_b64(parts[0].as_str()) {
        Ok(b) => b,
        Err(e) => return Err(e),
    };
    let nonce = match decode_b64(parts[1].as_str()) {
        Ok(b) => b,
        Err(e) => return Err(e),
    };
    let ct = match decode_b64(parts[2].as_str()) {
        Ok(b) => b,
        Err(e) => return Err(e),
    };
    let derived = derive_kek(secret, salt.as_slice());
    assert(derivation(secret@, salt@, derived));
    match derived {
        Ok(kek) => {
            let r = unwrap_with(&kek, nonce.as_slice(), ct.as_slice());
            proof {
                law_wrapped_parts_rewrite(wrapped@);
                if let Ok(k) = r {
                    assert(wraps_under(secret@, k@, salt@, nonce@, wrapped@));
                }
            }
            r
        },
        Err(e) => Err(e),
    }
}

/// Whether `blob` is the encryption of `plain` under `key` and `nonce`.
pub open spec fn encrypts_under(
    key: Seq<u8>,
    plain: Seq<char>,
    nonce: Seq<u8>,
    blob: Seq<char>,
) -> bool {
    let ct = gcm_sealed(key, nonce, encode_utf8(plain));
    &&& nonce.len() == NONCE_LEN
    &&& ct.len() == encode_utf8(plain).len() + TAG_LEN
    &&& blob == blob_text(nonce, ct)
}

/// Whether `blob` is the encryption of `plain` under `key` and some nonce.
pub open spec fn is_encryption(key: Seq<u8>, plain: Seq<char>, blob: Seq<char>) -> bool {
    exists|nonce: Seq<u8>| encrypts_under(key, plain, nonce, blob)
}

/// Whether `blob` has the parts of an encryption of `plain`: a nonce, and a
/// ciphertext as long as the bytes of `plain` and a tag.
pub open spec fn sized_for(plain: Seq<char>, blob: Seq<char>) -> bool {
    blob_parts(blob) matches Ok((nonce, ct)) && nonce.len() == NONCE_LEN && ct.len()
        == encode_utf8(plain).len() + TAG_LEN
}

/// An encryption of a password has the parts that its length asks for.
pub proof fn law_encryption_sized(key: Seq<u8>, plain: Seq<char>, blob: Seq<char>)
    requires
        is_encryption(key, plain, blob),
    ensures
        sized_for(plain, blob),
{
    let nonce = choose|nonce: Seq<u8>| encrypts_under(key, plain, nonce, blob);
    law_blob_text_splits(nonce, gcm_sealed(key, nonce, encode_utf8(plain)));
}

/// An encrypted password holds Base64 characters and one dot only.
pub proof fn law_encryption_characters(key: Seq<u8>, plain: Seq<char>, blob: Seq<char>)
    requires
        is_encryption(key, plain, blob),
    ensures
        forall|i: int| 0 <= i < blob.len() ==> in_alphabet(#[trigger] blob[i]) || blob[i] == '.',
        split_on(blob, '.').len() == 2,
{
    let nonce = choose|nonce: Seq<u8>| encrypts_under(key, plain, nonce, blob);
    let ct = gcm_sealed(key, nonce, encode_utf8(plain));
    law_blob_text_splits(nonce, ct);
    law_encoded_in_alphabet(nonce);
    law_encoded_in_alphabet(ct);
    let head = encoded(nonce).push('.');
    assert forall|i: int| 0 <= i < blob.len() implies in_alphabet(#[trigger] blob[i]) || blob[i]
        == '.' by {
        if i < encoded(nonce).len() {
            assert(blob[i] == encoded(nonce)[i]);
        } else if i >= head.len() {
            assert(blob[i] == encoded(ct)[i - head.len()]);
        }
    }
}

/// A wrapped key has three parts: the salt, a nonce, and a ciphertext as long
/// as the key and a tag.
pub proof fn law_wrapping_sized(
    secret: Seq<u8>,
    vault_key: Seq<u8>,
    salt: Seq<u8>,
    wrapped: Seq<char>,
)
    requires
        is_wrapping(secret, vault_key, salt, wrapped),
    ensures
        wrapped_parts(wrapped) matches Ok((part, nonce, ct)) && part == salt && nonce.len()
            == NONCE_LEN && ct.len() == vault_key.len() + TAG_LEN,
{
    let nonce = choose|nonce: Seq<u8>| wraps_under(secret, vault_key, salt, nonce, wrapped);
    law_wrapped_text_splits(salt, nonce, gcm_sealed(kek(secret, salt), nonce, vault_key));
}

/// Whether a password is short enough to be encrypted.
pub open spec fn encryptable(plain: Seq<char>) -> bool {
    encode_utf8(plain).len() <= gcm_max_plain()
}

/// Encrypts a record password under a given nonce.
pub fn encrypt_with(key: &VaultKey, nonce: &[u8; 12], plaintext: &str) -> (r: Result<
    String,
    CryptoError,
>)
    ensures
        match r {
            Ok(blob) => {
                &&& encryptable(plaintext@)
                &&& encrypts_under(key@, plaintext@, nonce@, blob@)
                &&& decrypted(key@, blob@) == Ok::<Seq<char>, Fault>(plaintext@)
                &&& sized_for(plaintext@, blob@)
            },
            Err(e) => !encryptable(plaintext@) && e@ == Fault::Aead,
        },
{
    match seal_with(key.as_bytes(), nonce, plaintext.as_bytes()) {
        Ok(ct) => {
            proof {
                law_blob_text_splits(nonce@, ct@);
                encode_utf8_valid_utf8(plaintext@);
                encode_utf8_decode_utf8(plaintext@);
            }
            Ok(write_blob(nonce, ct.as_slice()))
        },
        Err(e) => Err(e),
    }
}

/// Whether the nonce in an encrypted password was drawn.
pub open spec fn freshly_encrypted(blob: Seq<char>) -> bool {
    blob_parts(blob) matches Ok((nonce, _)) && drawn(nonce)
}

/// Whether the nonce in a wrapped key was drawn.
pub open spec fn freshly_wrapped(wrapped: Seq<char>) -> bool {
    wrapped_parts(wrapped) matches Ok((_, nonce, _)) && drawn(nonce)
}

/// Encrypts a record password under a fresh random nonce. The text decrypts,
/// under the same key, to the same password.
pub fn encrypt_password(key: &VaultKey, plaintext: &str) -> (r: Result<String, CryptoError>)
    ensures
        r matches Ok(blob) ==> freshly_encrypted(blob@),
        match r {
            Ok(blob) => {
                &&& encryptable(plaintext@)
                &&& is_encryption(key@, plaintext@, blob@)
                &&& decrypted(key@, blob@) == Ok::<Seq<char>, Fault>(plaintext@)
                &&& sized_for(plaintext@, blob@)
            },
            Err(e) => !encryptable(plaintext@) && e@ == Fault::Aead,
        },
{
    let nonce = random_bytes::<12>();
    assert(drawn(nonce@));
    let r = encrypt_with(key, &nonce, plaintext);
    proof {
        if r is Ok {
            law_blob_text_splits(nonce@, gcm_sealed(key@, nonce@, encode_utf8(plaintext@)));
        }
    }
    r
}

/// Decrypts a record password. Only an encryption of a password under that
/// key gives it.
pub fn decrypt_password(key: &VaultKey, blob: &str) -> (r: Result<String, CryptoError>)
    ensures
        outcome(r) == decrypted(key@, blob@),
        r matches Ok(plain) ==> is_encryption(key@, plain@, blob@) && sized_for(plain@, blob@),
{
    let parts = split(blob, '.');
    assert(parts@.len() == split_on(blob@, '.').len());
    if parts.len() != 2 {
        return Err(CryptoError::BadFormat("密文应含两段".to_owned()));
    }
    assert(views(parts@)[0] == parts@[0]@ && views(parts@)[1] == parts@[1]@);
    let nonce = match decode_b64(parts[0].as_str()) {
        Ok(b) => b,
        Err(e) => return Err(e),
    };
    let ct = match decode_b64(parts[1].as_str()) {
        Ok(b) => b,
        Err(e) => return Err(e),
    };
    match open(key.as_bytes(), nonce.as_slice(), ct.as_slice()) {
        Ok(opened) => {
            let ghost plain = opened@;
            match text_from_utf8(opened) {
                Some(s) => {
                    proof {
                        law_blob_parts_rewrite(blob@);
                        decode_utf8_encode_utf8(plain);
                        assert(encrypts_under(key@, s@, nonce@, blob@));
                    }
                    Ok(s)
                },
                None => Err(CryptoError::BadFormat("解密结果非 UTF-8".to_owned())),
            }
        },
        Err(e) => Err(e),
    }
}

/// Calls `machine_uid::get`, and gives the text of its error where it fails.
/// Nothing is claimed of the result: it is read from the machine.
#[verifier::external_body]
fn read_machine_uid() -> (r: Result<String, String>) {
    machine_uid::get().map_err(|e| e.to_string())
}

/// Whether `r` is what a reading of the machine's code came to.
pub closed spec fn machine_read(r: Result<String, CryptoError>) -> bool {
    exists|reading: Result<String, String>| #[trigger]
        call_ensures(read_machine_uid, (), reading) && r == code_read(reading)
}

/// What a reading of the machine code comes to.
pub open spec fn code_read(reading: Result<String, String>) -> Result<String, CryptoError> {
    match reading {
        Ok(code) => Ok(code),
        Err(why) => Err(CryptoError::MachineId(why)),
    }
}

/// What a reading of the machine code comes to.
pub fn machine_code_from(reading: Result<String, String>) -> (r: Result<String, CryptoError>)
    ensures
        match reading {
            Ok(code) => r == Ok::<String, CryptoError>(code),
            Err(why) => r == Err::<String, CryptoError>(CryptoError::MachineId(why)),
        },
{
    match reading {
        Ok(code) => Ok(code),
        Err(why) => Err(CryptoError::MachineId(why)),
    }
}

/// The code of this machine.
pub fn machine_code() -> (r: Result<String, CryptoError>)
    ensures
        r matches Err(e) ==> e@ is MachineId,
        machine_read(r),
{
    machine_code_from(read_machine_uid())
}

/// The bytes with the legacy key laid over them.
pub open spec fn legacy_xored(b: Seq<u8>) -> Seq<u8> {
    Seq::new(b.len(), |i: int| b[i] ^ LEGACY_XOR_KEY@[i % 11])
}

/// The legacy encoding of a password.
pub open spec fn legacy_encoded(s: Seq<char>) -> Seq<char> {
    encoded(legacy_xored(encode_utf8(s)))
}

/// What decoding a legacy password gives.
pub open spec fn legacy_decoded(s: Seq<char>) -> Result<Seq<char>, Fault> {
    match decoded(s) {
        Some(b) => if valid_utf8(legacy_xored(b)) {
            Ok(decode_utf8(legacy_xored(b)))
        } else {
            Err(Fault::BadFormat("解码结果非 UTF-8"@))
        },
        None => Err(Fault::Base64),
    }
}

/// Whether `scrambled` is `plain` with the legacy key laid over it: the two
/// differ, byte for byte and to the end, by the key over and over.
pub open spec fn differs_by_key(plain: Seq<u8>, scrambled: Seq<u8>) -> bool {
    &&& scrambled.len() == plain.len()
    &&& forall|i: int|
        0 <= i < plain.len() ==> (#[trigger] scrambled[i]) ^ plain[i] == LEGACY_XOR_KEY@[i % 11]
}

/// Laying the legacy key over bytes changes each of them, however many there
/// are, by the byte of the key that its index comes to.
pub proof fn law_legacy_key_laid(b: Seq<u8>)
    ensures
        differs_by_key(b, legacy_xored(b)),
        differs_by_key(legacy_xored(b), b),
{
    let x = legacy_xored(b);
    assert forall|i: int| 0 <= i < b.len() implies (#[trigger] x[i]) ^ b[i]
        == LEGACY_XOR_KEY@[i % 11] by {
        let v = b[i];
        let k = LEGACY_XOR_KEY@[i % 11];
        assert((v ^ k) ^ v == k) by (bit_vector);
    }
    assert forall|i: int| 0 <= i < x.len() implies (#[trigger] b[i]) ^ x[i]
        == LEGACY_XOR_KEY@[i % 11] by {
        let v = b[i];
        let k = LEGACY_XOR_KEY@[i % 11];
        assert(v ^ (v ^ k) == k) by (bit_vector);
    }
}

/// The legacy key laid over zero bytes is the key over and over.
pub proof fn law_legacy_zero_bytes(n: nat, i: int)
    requires
        0 <= i < n,
    ensures
        legacy_xored(Seq::new(n, |j: int| 0u8)).len() == n,
        legacy_xored(Seq::new(n, |j: int| 0u8))[i] == LEGACY_XOR_KEY@[i % 11],
{
    let k = LEGACY_XOR_KEY@[i % 11];
    assert(0u8 ^ k == k) by (bit_vector);
}

/// Bytes that differ from the same bytes by the legacy key are the same.
proof fn differs_from_one(b: Seq<u8>, x: Seq<u8>, y: Seq<u8>)
    requires
        differs_by_key(b, x),
        differs_by_key(b, y),
    ensures
        x == y,
{
    assert forall|i: int| 0 <= i < x.len() implies x[i] == y[i] by {
        let (p, q, v) = (x[i], y[i], b[i]);
        assert(p ^ v == q ^ v);
        assert(p ^ v == q ^ v ==> p == q) by (bit_vector);
    }
    assert(x == y);
}

/// The legacy encoding of a password is the Base64 form of bytes that differ
/// from its bytes by the legacy key, to the last byte.
pub proof fn law_legacy_encoded_bytes(s: Seq<char>, raw: Seq<u8>)
    ensures
        legacy_encoded(s) == encoded(raw) <==> differs_by_key(encode_utf8(s), raw),
{
    let x = legacy_xored(encode_utf8(s));
    law_legacy_key_laid(encode_utf8(s));
    if legacy_encoded(s) == encoded(raw) {
        law_encoded_injective(x, raw);
    }
    if differs_by_key(encode_utf8(s), raw) {
        differs_from_one(encode_utf8(s), x, raw);
    }
}

/// A line decodes, the legacy way, to a password exactly where it is the
/// Base64 form of bytes that differ from the bytes of the password by the
/// legacy key, to the last byte.
pub proof fn law_legacy_decoded_bytes(line: Seq<char>, s: Seq<char>)
    ensures
        legacy_decoded(line) == Ok::<Seq<char>, Fault>(s) <==> exists|raw: Seq<u8>|
            line == #[trigger] encoded(raw) && differs_by_key(encode_utf8(s), raw),
{
    if legacy_decoded(line) == Ok::<Seq<char>, Fault>(s) {
        let raw = decoded(line)->0;
        assert(encoded(raw) == line);
        decode_utf8_encode_utf8(legacy_xored(raw));
        law_legacy_key_laid(raw);
    }
    if exists|raw: Seq<u8>|
        line == #[trigger] encoded(raw) && differs_by_key(encode_utf8(s), raw) {
        let raw = choose|raw: Seq<u8>|
            line == #[trigger] encoded(raw) && differs_by_key(encode_utf8(s), raw);
        law_legacy_encoded_bytes(s, raw);
        law_legacy_roundtrip(s);
    }
}

/// Laying the legacy key over bytes twice gives the bytes back.
pub proof fn law_legacy_xor_twice(b: Seq<u8>)
    ensures
        legacy_xored(legacy_xored(b)) == b,
{
    assert forall|i: int| 0 <= i < b.len() implies legacy_xored(legacy_xored(b))[i] == b[i] by {
        let x = b[i];
        let k = LEGACY_XOR_KEY@[i % 11];
        assert((x ^ k) ^ k == x) by (bit_vector);
    }
}

/// Decoding gives back the password that was encoded the legacy way.
pub proof fn law_legacy_roundtrip(s: Seq<char>)
    ensures
        legacy_decoded(legacy_encoded(s)) == Ok::<Seq<char>, Fault>(s),
{
    let bytes = encode_utf8(s);
    law_decoded_encoded(legacy_xored(bytes));
    law_legacy_xor_twice(bytes);
    encode_utf8_valid_utf8(s);
    encode_utf8_decode_utf8(s);
}

/// Lays the legacy key over bytes.
fn legacy_xor(data: &[u8]) -> (r: Vec<u8>)
    ensures
        r@ == legacy_xored(data@),
{
    let mut out: Vec<u8> = Vec::new();
    let mut i: usize = 0;
    while i < data.len()
        invariant
            i <= data@.len(),
            out@ == legacy_xored(data@).take(i as int),
        decreases data@.len() - i,
    {
        out.push(data[i] ^ LEGACY_XOR_KEY[i % 11]);
        i += 1;
    }
    assert(legacy_xored(data@).take(i as int) == legacy_xored(data@));
    out
}

/// Encodes a password the legacy way: XOR, then Base64.
pub fn legacy_xor_encode(s: &str) -> (r: String)
    ensures
        r@ == legacy_encoded(s@),
{
    encode_b64(legacy_xor(s.as_bytes()).as_slice())
}

/// Decodes a legacy password: Base64, then XOR.
pub fn legacy_xor_decode(s: &str) -> (r: Result<String, CryptoError>)
    ensures
        outcome(r) == legacy_decoded(s@),
{
    match decode_b64(s) {
        Ok(data) => match text_from_utf8(legacy_xor(data.as_slice())) {
            Some(t) => Ok(t),
            None => Err(CryptoError::BadFormat("解码结果非 UTF-8".to_owned())),
        },
        Err(e) => Err(e),
    }
}

/// Decoding a line the legacy way gives a password exactly where the line is
/// the Base64 form of bytes that differ from the bytes of the password by the
/// legacy key, each to the last; encoding gives such a line.
pub proof fn law_legacy_passwords(
    line: &str,
    r: Result<String, CryptoError>,
    password: &str,
    written: String,
)
    requires
        call_ensures(legacy_xor_decode, (line,), r),
        call_ensures(legacy_xor_encode, (password,), written),
    ensures
        r matches Ok(s) ==> exists|raw: Seq<u8>|
            line@ == #[trigger] encoded(raw) && differs_by_key(encode_utf8(s@), raw),
        r is Err ==> forall|s: Seq<char>, raw: Seq<u8>|
            line@ == #[trigger] encoded(raw) ==> !#[trigger] differs_by_key(encode_utf8(s), raw),
        exists|raw: Seq<u8>|
            written@ == #[trigger] encoded(raw) && differs_by_key(encode_utf8(password@), raw),
        line@ == written@ ==> (r matches Ok(s) && s@ == password@),
{
    match r {
        Ok(s) => law_legacy_decoded_bytes(line@, s@),
        Err(_) => {
            assert forall|s: Seq<char>, raw: Seq<u8>| line@ == #[trigger] encoded(
                raw,
            ) implies !#[trigger] differs_by_key(encode_utf8(s), raw) by {
                law_legacy_decoded_bytes(line@, s);
            }
        },
    }
    law_legacy_key_laid(encode_utf8(password@));
    law_legacy_roundtrip(password@);
}

/// A nonce of another length than twelve bytes is a fault of the format, and a
/// ciphertext without room for a tag opens to nothing.
pub proof fn law_open_refuses(key: Seq<u8>, nonce: Seq<u8>, ct: Seq<u8>)
    ensures
        nonce.len() != 12 ==> open_outcome(key, nonce, ct)->Err_0 is BadFormat && open_outcome(
            key,
            nonce,
            ct,
        ) is Err,
        ct.len() < 16 ==> open_outcome(key, nonce, ct) is Err,
{
}

/// What unwraps is a key of 32 bytes, from a text of exactly three parts that
/// are all Base64; a text of another number of parts is a fault of the format.
pub proof fn law_unwrapped_from_three_parts(secret: Seq<u8>, wrapped: Seq<char>)
    ensures
        unwrapped(secret, wrapped) matches Ok(k) ==> k.len() == 32 && exists|
            salt: Seq<u8>,
            nonce: Seq<u8>,
            ct: Seq<u8>,
        |
            wrapped == #[trigger] wrapped_text(salt, nonce, ct) && nonce.len() == 12 && gcm_opened(
                argon2id(19_456, 2, 1, secret, salt),
                nonce,
                ct,
            ) == Some(k),
        split_on(wrapped, '.').len() != 3 ==> unwrapped(secret, wrapped) is Err && unwrapped(
            secret,
            wrapped,
        )->Err_0 is BadFormat,
{
    law_wrapped_parts_rewrite(wrapped);
    if let Ok((salt, nonce, ct)) = wrapped_parts(wrapped) {
        if unwrapped(secret, wrapped) is Ok {
            assert(wrapped == wrapped_text(salt, nonce, ct));
        }
    }
}

/// What decrypts comes from a text of exactly two parts that are both Base64;
/// a text of another number of parts is a fault of the format.
pub proof fn law_decrypted_from_two_parts(key: Seq<u8>, blob: Seq<char>)
    ensures
        decrypted(key, blob) matches Ok(plain) ==> exists|nonce: Seq<u8>, ct: Seq<u8>|
            blob == #[trigger] blob_text(nonce, ct) && nonce.len() == 12 && gcm_opened(
                key,
                nonce,
                ct,
            ) == Some(encode_utf8(plain)),
        split_on(blob, '.').len() != 2 ==> decrypted(key, blob) is Err && decrypted(
            key,
            blob,
        )->Err_0 is BadFormat,
{
    law_blob_parts_rewrite(blob);
    if let Ok((nonce, ct)) = blob_parts(blob) {
        if decrypted(key, blob) is Ok {
            assert(blob == blob_text(nonce, ct));
            decode_utf8_encode_utf8(gcm_opened(key, nonce, ct)->0);
        }
    }
}

/// The machine code is taken as it was read, and the reason of a failed
/// reading is kept.
pub proof fn law_machine_code_as_read(
    reading: Result<String, String>,
    r: Result<String, CryptoError>,
)
    requires
        call_ensures(machine_code_from, (reading,), r),
    ensures
        match reading {
            Ok(code) => r == Ok::<String, CryptoError>(code),
            Err(why) => r is Err && r->Err_0@ == Fault::MachineId(why@),
        },
        r == code_read(reading),
{
}

/// A password that was encrypted under a key decrypts, under that key, to the
/// same password, whatever it is; encrypting fails only on what is too long.
pub proof fn law_password_roundtrip(
    key: &VaultKey,
    plain: &str,
    r: Result<String, CryptoError>,
    blob: &str,
    back: Result<String, CryptoError>,
)
    requires
        call_ensures(encrypt_password, (key, plain), r),
        call_ensures(decrypt_password, (key, blob), back),
    ensures
        r is Ok <==> encode_utf8(plain@).len() <= 68_719_476_704,
        r matches Ok(b) ==> freshly_encrypted(b@) && (b@ == blob@ ==> (back matches Ok(p) && p@
            == plain@)),
{
    law_encryptable(plain@);
}

/// A key that was wrapped under a secret unwraps under that secret to the same
/// key, unless a derivation ran out of memory.
pub proof fn law_wrapping_roundtrip(
    secret: &[u8],
    vault_key: &[u8; 32],
    salt: &[u8],
    r: Result<String, CryptoError>,
    wrapped: &str,
    back: Result<[u8; 32], CryptoError>,
)
    requires
        call_ensures(wrap_key, (secret, vault_key, salt), r),
        call_ensures(unwrap_key, (secret, wrapped), back),
    ensures
        r matches Ok(w) ==> freshly_wrapped(w@) && (w@ == wrapped@ ==> {
            ||| back matches Ok(k) && k@ == vault_key@
            ||| ran_out_of_memory(secret@, wrapped@)
        }),
        r matches Err(e) ==> derivation(secret@, salt@, Err(e)),
{
    if let Ok(w) = r {
        if w@ == wrapped@ {
            law_unwrapping_right(secret@, wrapped@, outcome(back));
        }
    }
}

/// The message of an error holds the whole text of what it reports: of the
/// outside error, of the failed reading or of the fault in the format.
pub proof fn law_messages_report(fault: Fault, detail: Seq<char>)
    ensures
        fault is Argon2 || fault is Base64 ==> holds(fault_message(fault, detail), detail),
        fault matches Fault::MachineId(m) ==> holds(fault_message(fault, detail), m),
        fault matches Fault::BadFormat(m) ==> holds(fault_message(fault, detail), m),
        fault == Fault::WrongSecret || fault == Fault::Aead ==> fault_message(fault, detail)
            == fault_message(fault, Seq::empty()),
{
    law_holds_between("密钥派生失败："@, detail, Seq::empty());
    law_holds_between("Base64 解码失败："@, detail, Seq::empty());
    if let Fault::MachineId(m) = fault {
        law_holds_between("无法读取机器码："@, m, Seq::empty());
    }
    if let Fault::BadFormat(m) = fault {
        law_holds_between("密文格式错误："@, m, Seq::empty());
    }
}

} // verus!
