use vstd::prelude::*;
use vstd::slice::{slice_subrange, slice_to_vec};
use vstd::string::StrSliceExecFns;
use chacha20poly1305::aead::{Aead, AeadCore, KeyInit, OsRng};
use chacha20poly1305::ChaCha20Poly1305;
use ed25519_dalek::{Signature, Signer, SigningKey, Verifier, VerifyingKey};

verus! {

/// How a text is signed: a keyed BLAKE3 hash, or an Ed25519 signature.
#[derive(Debug, Clone, Copy, PartialEq, Eq, Structural)]
pub enum TextSignFormat {
    Blake3,
    Ed25519,
}

/// How a text is encrypted.
#[derive(Debug, Clone, Copy, PartialEq, Eq, Structural)]
pub enum TextEncryptFormat {
    ChaCha20,
}

/// Why a text operation failed.
#[derive(Debug, Clone, Copy, PartialEq, Eq, Structural)]
pub enum TextError {
    /// A format name that is not known.
    InvalidFormat,
    /// The key holds fewer than 32 bytes.
    KeyTooShort,
    /// An Ed25519 signature holds fewer than 64 bytes.
    SignatureTooShort,
    /// The 32 key bytes are not an Ed25519 public key.
    InvalidPublicKey,
    /// The input is not a nonce, a `.` and a ciphertext.
    InvalidCiphertextFormat,
    /// The cipher refused the plaintext.
    EncryptionFailed,
    /// The ciphertext does not authenticate under the key and nonce.
    DecryptionFailed,
}

/// Byte length of a key.
pub const KEY_LEN: usize = 32;

/// Byte length of an Ed25519 signature.
pub const SIGNATURE_LEN: usize = 64;

/// Byte length of a ChaCha20-Poly1305 nonce.
pub const NONCE_LEN: usize = 12;

/// The byte that parts the nonce from the ciphertext: `.`.
pub const FRAME_SEPARATOR: u8 = 46;

/// The keyed BLAKE3 hash of `data` under `key`.
pub uninterp spec fn blake3_keyed_of(key: Seq<u8>, data: Seq<u8>) -> Seq<u8>;

/// The Ed25519 signature of `data` under the secret key `secret`.
pub uninterp spec fn ed25519_signature_of(secret: Seq<u8>, data: Seq<u8>) -> Seq<u8>;

/// Whether `public` is the encoding of an Ed25519 public key.
pub uninterp spec fn ed25519_key_valid(public: Seq<u8>) -> bool;

/// Whether `sig` is a valid Ed25519 signature of `data` under `public`.
pub uninterp spec fn ed25519_accepts(public: Seq<u8>, data: Seq<u8>, sig: Seq<u8>) -> bool;

/// The ChaCha20-Poly1305 ciphertext (tag included) of `plain`, if the cipher
/// takes it.
pub uninterp spec fn chacha_sealed(key: Seq<u8>, nonce: Seq<u8>, plain: Seq<u8>) -> Option<Seq<u8>>;

/// The plaintext of a ChaCha20-Poly1305 ciphertext, if it authenticates.
pub uninterp spec fn chacha_opened(key: Seq<u8>, nonce: Seq<u8>, cipher: Seq<u8>) -> Option<Seq<u8>>;

/// Relies on blake3::keyed_hash: the 32-byte keyed hash of `data`.
#[verifier::external_body]
fn blake3_keyed_hash(key: &[u8; 32], data: &[u8]) -> (r: Vec<u8>)
    ensures
        r@ == blake3_keyed_of(key@, data@),
        r@.len() == 32,
{
    blake3::keyed_hash(key, data).as_bytes().to_vec()
}

/// Relies on ed25519_dalek's SigningKey::sign: the 64-byte signature of
/// `data` under the secret key given by its 32 bytes.
#[verifier::external_body]
fn ed25519_sign(secret: &[u8; 32], data: &[u8]) -> (r: Vec<u8>)
    ensures
        r@ == ed25519_signature_of(secret@, data@),
        r@.len() == 64,
{
    SigningKey::from_bytes(secret).sign(data).to_bytes().to_vec()
}

/// Relies on ed25519_dalek's VerifyingKey::from_bytes, which fails when the
/// bytes are no public key, and VerifyingKey::verify.
#[verifier::external_body]
fn ed25519_verify(public: &[u8; 32], data: &[u8], sig: &[u8; 64]) -> (r: Option<bool>)
    ensures
        r is Some <==> ed25519_key_valid(public@),
        r matches Some(ok) ==> ok == ed25519_accepts(public@, data@, sig@),
{
    VerifyingKey::from_bytes(public).ok().map(|k| k.verify(data, &Signature::from_bytes(sig)).is_ok())
}

/// Relies on chacha20poly1305's generate_nonce with the operating system's
/// random source: a fresh nonce, of which nothing else is known.
#[verifier::external_body]
fn chacha_fresh_nonce() -> (r: [u8; 12]) {
    ChaCha20Poly1305::generate_nonce(&mut OsRng).into()
}

/// Relies on chacha20poly1305's Aead::encrypt, under the cipher made from `key`.
#[verifier::external_body]
fn chacha_encrypt(key: &[u8; 32], nonce: &[u8; 12], plain: &[u8]) -> (r: Option<Vec<u8>>)
    ensures
        r is Some <==> chacha_sealed(key@, nonce@, plain@) is Some,
        r matches Some(c) ==> chacha_sealed(key@, nonce@, plain@) == Some(c@),
{
    ChaCha20Poly1305::new(key.into()).encrypt(nonce.into(), plain).ok()
}

/// Relies on chacha20poly1305's Aead::decrypt, under the cipher made from `key`.
#[verifier::external_body]
fn chacha_decrypt(key: &[u8; 32], nonce: &[u8; 12], cipher: &[u8]) -> (r: Option<Vec<u8>>)
    ensures
        r is Some <==> chacha_opened(key@, nonce@, cipher@) is Some,
        r matches Some(p) ==> chacha_opened(key@, nonce@, cipher@) == Some(p@),
{
    ChaCha20Poly1305::new(key.into()).decrypt(nonce.into(), cipher).ok()
}

/// The first `N` bytes of `bytes`.
fn prefix_array<const N: usize>(bytes: &[u8]) -> (r: [u8; N])
    requires
        bytes@.len() >= N,
    ensures
        r@ == bytes@.subrange(0, N as int),
{
    let mut r: [u8; N] = [0u8; N];
    let mut i: usize = 0;
    while i < N
        invariant
            i <= N,
            N <= bytes@.len(),
            r@.len() == N,
            forall|k: int| 0 <= k < i ==> r@[k] == bytes@[k],
        decreases N - i,
    {
        r[i] = bytes[i];
        i = i + 1;
    }
    assert(r@ =~= bytes@.subrange(0, N as int));
    r
}

/// Whether two byte strings are equal.
fn bytes_equal(a: &[u8], b: &[u8]) -> (r: bool)
    ensures
        r == (a@ == b@),
{
    if a.len() != b.len() {
        return false;
    }
    let mut i: usize = 0;
    while i < a.len()
        invariant
            a@.len() == b@.len(),
            i <= a@.len(),
            forall|k: int| 0 <= k < i ==> a@[k] == b@[k],
        decreases a@.len() - i,
    {
        if a[i] != b[i] {
            return false;
        }
        i = i + 1;
    }
    assert(a@ =~= b@);
    true
}

/// Whether two strings are equal.
fn text_equal(a: &str, b: &str) -> (r: bool)
    ensures
        r == (a@ == b@),
{
    let n = a.unicode_len();
    if n != b.unicode_len() {
        return false;
    }
    let mut i: usize = 0;
    while i < n
        invariant
            n == a@.len(),
            a@.len() == b@.len(),
            i <= n,
            forall|k: int| 0 <= k < i ==> a@[k] == b@[k],
        decreases n - i,
    {
        if a.get_char(i) != b.get_char(i) {
            return false;
        }
        i = i + 1;
    }
    assert(a@ =~= b@);
    true
}

/// Relies on ed25519_dalek's VerifyingKey::from_bytes, which fails when the
/// bytes are no public key.
#[verifier::external_body]
fn ed25519_key_check(public: &[u8; 32]) -> (r: bool)
    ensures
        r == ed25519_key_valid(public@),
{
    VerifyingKey::from_bytes(public).is_ok()
}

/// A byte string as a value, for contracts over results that hold bytes.
pub open spec fn bytes_view(r: Result<Vec<u8>, TextError>) -> Result<Seq<u8>, TextError> {
    match r {
        Ok(v) => Ok(v@),
        Err(e) => Err(e),
    }
}

/// The 32 key bytes that a longer key stands for: its first 32.
pub open spec fn key_part(key: Seq<u8>) -> Seq<u8> {
    key.subrange(0, KEY_LEN as int)
}

/// A nonce and a ciphertext as one byte string: the nonce, a `.`, the
/// ciphertext.
pub open spec fn framed(nonce: Seq<u8>, cipher: Seq<u8>) -> Seq<u8> {
    nonce + seq![FRAME_SEPARATOR] + cipher
}

/// The nonce and the ciphertext of a framed byte string, if `data` is one:
/// twelve bytes of nonce, a `.`, and the rest.
pub open spec fn unframed(data: Seq<u8>) -> Option<(Seq<u8>, Seq<u8>)> {
    if data.len() > NONCE_LEN && data[NONCE_LEN as int] == FRAME_SEPARATOR {
        Some((data.subrange(0, NONCE_LEN as int), data.subrange(NONCE_LEN + 1, data.len() as int)))
    } else {
        None
    }
}

/// The signature of `data` under `key` in `format`.
pub open spec fn sign_result(data: Seq<u8>, key: Seq<u8>, format: TextSignFormat) -> Result<Seq<u8>, TextError> {
    if key.len() < KEY_LEN {
        Err(TextError::KeyTooShort)
    } else {
        match format {
            TextSignFormat::Blake3 => Ok(blake3_keyed_of(key_part(key), data)),
            TextSignFormat::Ed25519 => Ok(ed25519_signature_of(key_part(key), data)),
        }
    }
}

/// Whether `sig` signs `data` under `key` in `format`.
pub open spec fn verify_result(data: Seq<u8>, key: Seq<u8>, sig: Seq<u8>, format: TextSignFormat) -> Result<bool, TextError> {
    if key.len() < KEY_LEN {
        Err(TextError::KeyTooShort)
    } else {
        match format {
            TextSignFormat::Blake3 => Ok(blake3_keyed_of(key_part(key), data) == sig),
            TextSignFormat::Ed25519 => if !ed25519_key_valid(key_part(key)) {
                Err(TextError::InvalidPublicKey)
            } else if sig.len() < SIGNATURE_LEN {
                Err(TextError::SignatureTooShort)
            } else {
                Ok(ed25519_accepts(key_part(key), data, sig.subrange(0, SIGNATURE_LEN as int)))
            },
        }
    }
}

/// What encrypting `data` under a 32-byte `key` with `nonce` gives.
pub open spec fn seal_result(data: Seq<u8>, key: Seq<u8>, nonce: Seq<u8>) -> Result<Seq<u8>, TextError> {
    match chacha_sealed(key, nonce, data) {
        Some(c) => Ok(framed(nonce, c)),
        None => Err(TextError::EncryptionFailed),
    }
}

/// What decrypting `data` under `key` gives.
pub open spec fn decrypt_result(data: Seq<u8>, key: Seq<u8>) -> Result<Seq<u8>, TextError> {
    if key.len() < KEY_LEN {
        Err(TextError::KeyTooShort)
    } else {
        match unframed(data) {
            None => Err(TextError::InvalidCiphertextFormat),
            Some((nonce, cipher)) => match chacha_opened(key_part(key), nonce, cipher) {
                Some(p) => Ok(p),
                None => Err(TextError::DecryptionFailed),
            },
        }
    }
}

/// The frame that encryption writes is the one that decryption reads: a
/// twelve-byte nonce and any ciphertext come back apart as they went in.
pub proof fn lemma_frame_round_trip(nonce: Seq<u8>, cipher: Seq<u8>)
    requires
        nonce.len() == NONCE_LEN,
    ensures
        unframed(framed(nonce, cipher)) == Some((nonce, cipher)),
{
    let f = framed(nonce, cipher);
    assert(f[NONCE_LEN as int] == FRAME_SEPARATOR);
    assert(f.subrange(0, NONCE_LEN as int) =~= nonce);
    assert(f.subrange(NONCE_LEN + 1, f.len() as int) =~= cipher);
}

/// Reads a signing format by name: `blake3` or `ed25519`.
pub fn parse_text_sign_format(format: &str) -> (r: Result<TextSignFormat, TextError>)
    ensures
        r == (if format@ == "blake3"@ {
            Ok(TextSignFormat::Blake3)
        } else if format@ == "ed25519"@ {
            Ok(TextSignFormat::Ed25519)
        } else {
            Err(TextError::InvalidFormat)
        }),
{
    if text_equal(format, "blake3") {
        Ok(TextSignFormat::Blake3)
    } else if text_equal(format, "ed25519") {
        Ok(TextSignFormat::Ed25519)
    } else {
        Err(TextError::InvalidFormat)
    }
}

/// Reads an encryption format by name: `chacha20`.
pub fn parse_text_encrypt_format(format: &str) -> (r: Result<TextEncryptFormat, TextError>)
    ensures
        r == (if format@ == "chacha20"@ {
            Ok(TextEncryptFormat::ChaCha20)
        } else {
            Err(TextError::InvalidFormat)
        }),
{
    if text_equal(format, "chacha20") {
        Ok(TextEncryptFormat::ChaCha20)
    } else {
        Err(TextError::InvalidFormat)
    }
}

impl TextSignFormat {
    /// The format's name, as `parse_text_sign_format` reads it.
    pub fn name(&self) -> (r: &'static str)
        ensures
            r@ == (match self {
                TextSignFormat::Blake3 => "blake3"@,
                TextSignFormat::Ed25519 => "ed25519"@,
            }),
    {
        match self {
            TextSignFormat::Blake3 => "blake3",
            TextSignFormat::Ed25519 => "ed25519",
        }
    }
}

impl TextEncryptFormat {
    /// The format's name, as `parse_text_encrypt_format` reads it.
    pub fn name(&self) -> (r: &'static str)
        ensures
            r@ == "chacha20"@,
    {
        "chacha20"
    }
}

/// Signs and verifies with a keyed BLAKE3 hash.
pub struct Blake3 {
    key: [u8; 32],
}

impl Blake3 {
    pub closed spec fn key(&self) -> Seq<u8> {
        self.key@
    }

    /// A signer keyed by the first 32 bytes of `key`.
    pub fn try_new(key: &[u8]) -> (r: Result<Blake3, TextError>)
        ensures
            key@.len() < KEY_LEN ==> r == Err::<Blake3, TextError>(TextError::KeyTooShort),
            key@.len() >= KEY_LEN ==> (r matches Ok(b) && b.key() == key_part(key@)),
    {
        if key.len() < KEY_LEN {
            return Err(TextError::KeyTooShort);
        }
        Ok(Blake3::new(prefix_array::<32>(key)))
    }

    pub fn new(key: [u8; 32]) -> (r: Blake3)
        ensures
            r.key() == key@,
    {
        Blake3 { key }
    }

    /// The keyed hash of `data`.
    pub fn sign(&self, data: &[u8]) -> (r: Vec<u8>)
        ensures
            r@ == blake3_keyed_of(self.key(), data@),
    {
        blake3_keyed_hash(&self.key, data)
    }

    /// Whether `sig` is the keyed hash of `data`.
    pub fn verify(&self, data: &[u8], sig: &[u8]) -> (r: bool)
        ensures
            r == (blake3_keyed_of(self.key(), data@) == sig@),
    {
        let mac = blake3_keyed_hash(&self.key, data);
        bytes_equal(mac.as_slice(), sig)
    }
}

/// Signs with an Ed25519 secret key.
pub struct Ed25519Signer {
    key: [u8; 32],
}

impl Ed25519Signer {
    pub closed spec fn key(&self) -> Seq<u8> {
        self.key@
    }

    /// A signer whose secret key is the first 32 bytes of `key`.
    pub fn try_new(key: &[u8]) -> (r: Result<Ed25519Signer, TextError>)
        ensures
            key@.len() < KEY_LEN ==> r == Err::<Ed25519Signer, TextError>(TextError::KeyTooShort),
            key@.len() >= KEY_LEN ==> (r matches Ok(s) && s.key() == key_part(key@)),
    {
        if key.len() < KEY_LEN {
            return Err(TextError::KeyTooShort);
        }
        let k = prefix_array::<32>(key);
        Ok(Ed25519Signer::new(&k))
    }

    pub fn new(key: &[u8; 32]) -> (r: Ed25519Signer)
        ensures
            r.key() == key@,
    {
        Ed25519Signer { key: *key }
    }

    /// The 64-byte signature of `data`.
    pub fn sign(&self, data: &[u8]) -> (r: Vec<u8>)
        ensures
            r@ == ed25519_signature_of(self.key(), data@),
    {
        ed25519_sign(&self.key, data)
    }
}

/// Verifies with an Ed25519 public key.
pub struct Ed25519Verifier {
    key: [u8; 32],
}

impl Ed25519Verifier {
    pub closed spec fn key(&self) -> Seq<u8> {
        self.key@
    }

    pub closed spec fn wf(&self) -> bool {
        ed25519_key_valid(self.key@)
    }

    /// A verifier whose public key is the first 32 bytes of `key`.
    pub fn try_new(key: &[u8]) -> (r: Result<Ed25519Verifier, TextError>)
        ensures
            key@.len() < KEY_LEN ==> r == Err::<Ed25519Verifier, TextError>(TextError::KeyTooShort),
            key@.len() >= KEY_LEN && !ed25519_key_valid(key_part(key@)) ==> r
                == Err::<Ed25519Verifier, TextError>(TextError::InvalidPublicKey),
            key@.len() >= KEY_LEN && ed25519_key_valid(key_part(key@)) ==> (r matches Ok(v) && v.wf()
                && v.key() == key_part(key@)),
    {
        if key.len() < KEY_LEN {
            return Err(TextError::KeyTooShort);
        }
        let k = prefix_array::<32>(key);
        if !ed25519_key_check(&k) {
            return Err(TextError::InvalidPublicKey);
        }
        Ok(Ed25519Verifier { key: k })
    }

    /// Whether the first 64 bytes of `sig` are a signature of `data`; an
    /// error when `sig` is shorter.
    pub fn verify(&self, data: &[u8], sig: &[u8]) -> (r: Result<bool, TextError>)
        requires
            self.wf(),
        ensures
            sig@.len() < SIGNATURE_LEN ==> r == Err::<bool, TextError>(TextError::SignatureTooShort),
            sig@.len() >= SIGNATURE_LEN ==> r == Ok::<bool, TextError>(
                ed25519_accepts(self.key(), data@, sig@.subrange(0, SIGNATURE_LEN as int)),
            ),
    {
        if sig.len() < SIGNATURE_LEN {
            return Err(TextError::SignatureTooShort);
        }
        let s = prefix_array::<64>(sig);
        match ed25519_verify(&self.key, data, &s) {
            Some(ok) => Ok(ok),
            None => Err(TextError::InvalidPublicKey),
        }
    }
}

/// Encrypts and decrypts with ChaCha20-Poly1305.
pub struct ChaCha20 {
    key: [u8; 32],
}

impl ChaCha20 {
    pub closed spec fn key(&self) -> Seq<u8> {
        self.key@
    }

    /// A cipher keyed by the first 32 bytes of `key`.
    pub fn try_new(key: &[u8]) -> (r: Result<ChaCha20, TextError>)
        ensures
            key@.len() < KEY_LEN ==> r == Err::<ChaCha20, TextError>(TextError::KeyTooShort),
            key@.len() >= KEY_LEN ==> (r matches Ok(c) && c.key() == key_part(key@)),
    {
        if key.len() < KEY_LEN {
            return Err(TextError::KeyTooShort);
        }
        Ok(ChaCha20 { key: prefix_array::<32>(key) })
    }

    /// `data` encrypted with `nonce`, framed with it.
    pub fn seal(&self, nonce: &[u8; 12], data: &[u8]) -> (r: Result<Vec<u8>, TextError>)
        ensures
            bytes_view(r) == seal_result(data@, self.key(), nonce@),
    {
        match chacha_encrypt(&self.key, nonce, data) {
            Some(cipher) => {
                let mut out: Vec<u8> = slice_to_vec(nonce.as_slice());
                out.push(FRAME_SEPARATOR);
                let mut i: usize = 0;
                while i < cipher.len()
                    invariant
                        i <= cipher@.len(),
                        out@ == nonce@ + seq![FRAME_SEPARATOR] + cipher@.subrange(0, i as int),
                    decreases cipher@.len() - i,
                {
                    out.push(cipher[i]);
                    i = i + 1;
                    assert(cipher@.subrange(0, i as int) =~= cipher@.subrange(0, i - 1).push(cipher@[i - 1]));
                }
                assert(cipher@.subrange(0, i as int) =~= cipher@);
                Ok(out)
            },
            None => Err(TextError::EncryptionFailed),
        }
    }

    /// `data` encrypted with a fresh random nonce, framed with it.
    pub fn encrypt(&self, data: &[u8]) -> (r: Result<Vec<u8>, TextError>)
        ensures
            exists|nonce: Seq<u8>| nonce.len() == NONCE_LEN && bytes_view(r) == seal_result(data@, self.key(), nonce),
    {
        let nonce = chacha_fresh_nonce();
        self.seal(&nonce, data)
    }

    /// The plaintext of a framed ciphertext.
    pub fn decrypt(&self, data: &[u8]) -> (r: Result<Vec<u8>, TextError>)
        ensures
            self.key().len() == KEY_LEN,
            bytes_view(r) == decrypt_result(data@, self.key()),
    {
        assert(key_part(self.key()) =~= self.key());
        if data.len() <= NONCE_LEN || data[NONCE_LEN] != FRAME_SEPARATOR {
            return Err(TextError::InvalidCiphertextFormat);
        }
        let nonce = prefix_array::<12>(data);
        let cipher = slice_subrange(data, NONCE_LEN + 1, data.len());
        match chacha_decrypt(&self.key, &nonce, cipher) {
            Some(plain) => Ok(plain),
            None => Err(TextError::DecryptionFailed),
        }
    }
}

/// Signs `data` with `key` in `format`.
pub fn process_text_sign(data: &[u8], key: &[u8], format: TextSignFormat) -> (r: Result<Vec<u8>, TextError>)
    ensures
        bytes_view(r) == sign_result(data@, key@, format),
{
    match format {
        TextSignFormat::Blake3 => {
            let signer = Blake3::try_new(key)?;
            Ok(signer.sign(data))
        },
        TextSignFormat::Ed25519 => {
            let signer = Ed25519Signer::try_new(key)?;
            Ok(signer.sign(data))
        },
    }
}

/// Checks `sig` against `data` with `key` in `format`.
pub fn process_text_verify(data: &[u8], key: &[u8], sig: &[u8], format: TextSignFormat) -> (r: Result<bool, TextError>)
    ensures
        r == verify_result(data@, key@, sig@, format),
{
    match format {
        TextSignFormat::Blake3 => {
            let verifier = Blake3::try_new(key)?;
            Ok(verifier.verify(data, sig))
        },
        TextSignFormat::Ed25519 => {
            let verifier = Ed25519Verifier::try_new(key)?;
            verifier.verify(data, sig)
        },
    }
}

/// Encrypts `data` with `key` in `format`, under a fresh random nonce.
pub fn process_text_encrypt(data: &[u8], key: &[u8], format: TextEncryptFormat) -> (r: Result<Vec<u8>, TextError>)
    ensures
        key@.len() < KEY_LEN ==> r == Err::<Vec<u8>, TextError>(TextError::KeyTooShort),
        key@.len() >= KEY_LEN ==> exists|nonce: Seq<u8>|
            nonce.len() == NONCE_LEN && bytes_view(r) == seal_result(data@, key_part(key@), nonce),
{
    match format {
        TextEncryptFormat::ChaCha20 => {
            let crypto = ChaCha20::try_new(key)?;
            crypto.encrypt(data)
        },
    }
}

/// Decrypts framed `data` with `key` in `format`.
pub fn process_text_decrypt(data: &[u8], key: &[u8], format: TextEncryptFormat) -> (r: Result<Vec<u8>, TextError>)
    ensures
        bytes_view(r) == decrypt_result(data@, key@),
{
    match format {
        TextEncryptFormat::ChaCha20 => {
            let crypto = ChaCha20::try_new(key)?;
            proof { assert(key_part(key_part(key@)) =~= key_part(key@)); }
            crypto.decrypt(data)
        },
    }
}

/// `vec` without one trailing line break: `\r\n` or `\n`.
pub fn trim_trailing_newline(vec: Vec<u8>) -> (r: Vec<u8>)
    ensures
        r@ == (if vec@.len() >= 2 && vec@[vec@.len() - 2] == 0x0Du8 && vec@[vec@.len() - 1] == 0x0Au8 {
            vec@.subrange(0, vec@.len() - 2)
        } else if vec@.len() >= 1 && vec@[vec@.len() - 1] == 0x0Au8 {
            vec@.subrange(0, vec@.len() - 1)
        } else {
            vec@
        }),
{
    let mut trimmed = vec;
    let n = trimmed.len();
    if n >= 2 && trimmed[n - 2] == 0x0D && trimmed[n - 1] == 0x0A {
        trimmed.pop();
        trimmed.pop();
    } else if n >= 1 && trimmed[n - 1] == 0x0A {
        trimmed.pop();
    }
    assert(n >= 2 && vec@[n - 2] == 0x0Du8 && vec@[n - 1] == 0x0Au8 ==> trimmed@ =~= vec@.subrange(0, n - 2));
    assert(trimmed@ =~= (if vec@.len() >= 2 && vec@[vec@.len() - 2] == 0x0Du8 && vec@[vec@.len() - 1] == 0x0Au8 {
            vec@.subrange(0, vec@.len() - 2)
        } else if vec@.len() >= 1 && vec@[vec@.len() - 1] == 0x0Au8 {
            vec@.subrange(0, vec@.len() - 1)
        } else {
            vec@
        }));
    trimmed
}

} // verus!
