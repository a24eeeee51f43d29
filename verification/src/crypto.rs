//! Passphrase-based authenticated encryption.
//!
//! A 32-byte key is derived from the passphrase and a fresh random salt by an
//! iterated BLAKE3 hash; the payload is sealed with AES-256-GCM under a fresh
//! random nonce.  The ciphertext envelope is `salt (32) ‖ nonce (12) ‖
//! ciphertext ‖ tag`, and decryption re-derives the key from the salt found in
//! the envelope.

use vstd::prelude::*;
use vstd::slice::slice_subrange;
use vstd::string::StrSliceExecFns;
use vstd::string::StringSliceAdditionalSpecFns;
use aes_gcm::KeyInit;
use aes_gcm::aead::Aead;

verus! {

pub const SALT_LEN: usize = 32;

pub const NONCE_LEN: usize = 12;

pub const KEY_LEN: usize = 32;

/// Envelope bytes that precede the AEAD output.
pub const ENVELOPE_HEADER_LEN: usize = 44;

/// Rounds of key stretching applied on top of the initial digest.
pub const KEY_STRETCH_ROUNDS: u32 = 100000;

/// Longest plaintext AES-GCM accepts (NIST SP 800-38D limit).
pub const AES_GCM_MAX_PLAIN_LEN: u64 = 68719476704;

#[derive(Debug, Clone, Copy, PartialEq, Eq, Structural)]
pub enum CryptoError {
    EncryptionFailed,
    DecryptionFailed,
    InvalidFormat,
    PasswordTooShort,
}

/// The BLAKE3 digest of a byte string; 32 bytes, a pure function of the
/// input.
pub uninterp spec fn blake3_of(data: Seq<u8>) -> Seq<u8>;

/// What AES-256-GCM decryption returns for a key, a nonce and a ciphertext
/// (with its tag appended): the plaintext, or `None` when authentication
/// fails.  A pure function of its three arguments.
pub uninterp spec fn aes_gcm_open_of(key: Seq<u8>, nonce: Seq<u8>, cipher: Seq<u8>) -> Option<
    Seq<u8>,
>;

/// Whether a character has the Unicode uppercase property.
pub uninterp spec fn char_is_upper(c: char) -> bool;

/// Whether a character has the Unicode lowercase property.
pub uninterp spec fn char_is_lower(c: char) -> bool;

/// Whether a character is numeric in the Unicode sense.
pub uninterp spec fn char_is_numeric(c: char) -> bool;

/// Whether a character is alphanumeric in the Unicode sense.
pub uninterp spec fn char_is_alphanumeric(c: char) -> bool;

/// Relies on `char::is_uppercase`: a table lookup over the character alone.
pub assume_specification[ char::is_uppercase ](c: char) -> (r: bool)
    ensures
        r == char_is_upper(c),
;

/// Relies on `char::is_lowercase`: a table lookup over the character alone.
pub assume_specification[ char::is_lowercase ](c: char) -> (r: bool)
    ensures
        r == char_is_lower(c),
;

/// Relies on `char::is_numeric`: a table lookup over the character alone.
pub assume_specification[ char::is_numeric ](c: char) -> (r: bool)
    ensures
        r == char_is_numeric(c),
;

/// Relies on `char::is_alphanumeric`: a table lookup over the character
/// alone.
pub assume_specification[ char::is_alphanumeric ](c: char) -> (r: bool)
    ensures
        r == char_is_alphanumeric(c),
;

/// Relies on `blake3::hash`: the digest is 32 bytes and depends on the input
/// bytes alone.
#[verifier::external_body]
fn blake3_digest(data: &[u8]) -> (r: Vec<u8>)
    ensures
        r@ == blake3_of(data@),
        r@.len() == 32,
{
    blake3::hash(data).as_bytes().to_vec()
}

/// Relies on `rand::fill`: fills the buffer with random bytes from the
/// thread's generator.  Nothing is promised of the values.
#[verifier::external_body]
fn random_bytes(n: usize) -> (r: Vec<u8>)
    ensures
        r@.len() == n,
{
    let mut v = vec![0u8; n];
    rand::fill(v.as_mut_slice());
    v
}

/// Relies on `Aes256Gcm::new_from_slice` and `Aead::encrypt`: the only error
/// paths are a key of the wrong length and a plaintext over the AES-GCM
/// limit; on success the output is the ciphertext with the 16-byte tag
/// appended, and decrypting it with the same key and nonce returns the
/// plaintext.
#[verifier::external_body]
fn aes_gcm_seal(key: &[u8], nonce: &[u8], plain: &[u8]) -> (r: Option<Vec<u8>>)
    requires
        key@.len() == KEY_LEN,
        nonce@.len() == NONCE_LEN,
    ensures
        r is Some ==> (r->0)@.len() == plain@.len() + 16,
        r is Some ==> aes_gcm_open_of(key@, nonce@, (r->0)@) == Some(plain@),
        plain@.len() <= AES_GCM_MAX_PLAIN_LEN ==> r is Some,
{
    let cipher = match aes_gcm::Aes256Gcm::new_from_slice(key) {
        Ok(c) => c,
        Err(_) => {
            return None;
        },
    };
    let nonce_arr = match aes_gcm::Nonce::try_from(nonce) {
        Ok(n) => n,
        Err(_) => {
            return None;
        },
    };
    cipher.encrypt(&nonce_arr, plain).ok()
}

/// Relies on `Aes256Gcm::new_from_slice` and `Aead::decrypt`: decryption is a
/// pure function of key, nonce and ciphertext, returning the plaintext or
/// failing authentication.
#[verifier::external_body]
fn aes_gcm_open(key: &[u8], nonce: &[u8], cipher_text: &[u8]) -> (r: Option<Vec<u8>>)
    requires
        key@.len() == KEY_LEN,
        nonce@.len() == NONCE_LEN,
    ensures
        r is Some <==> aes_gcm_open_of(key@, nonce@, cipher_text@) is Some,
        r is Some ==> Some((r->0)@) == aes_gcm_open_of(key@, nonce@, cipher_text@),
{
    let cipher = match aes_gcm::Aes256Gcm::new_from_slice(key) {
        Ok(c) => c,
        Err(_) => {
            return None;
        },
    };
    let nonce_arr = match aes_gcm::Nonce::try_from(nonce) {
        Ok(n) => n,
        Err(_) => {
            return None;
        },
    };
    cipher.decrypt(&nonce_arr, cipher_text).ok()
}

/// The lowercase hexadecimal BLAKE3 digest of a byte string, as content
/// hashes are recorded.
pub fn blake3_hex(data: &[u8]) -> (r: String)
    ensures
        r@ == crate::text::lower_hex(blake3_of(data@)),
{
    let digest = blake3_digest(data);
    let chars = crate::text::to_lower_hex(digest.as_slice());
    crate::text::chars_to_string(&chars)
}

/// The key left after `rounds` further stretching steps starting from `k`.
pub open spec fn stretch_spec(k: Seq<u8>, salt: Seq<u8>, rounds: nat) -> Seq<u8>
    decreases rounds,
{
    if rounds == 0 {
        k
    } else {
        stretch_spec(blake3_of(k + salt), salt, (rounds - 1) as nat)
    }
}

/// The 32-byte key derived from a passphrase and a salt: the digest of
/// `passphrase ‖ salt`, stretched for `KEY_STRETCH_ROUNDS` rounds.
pub open spec fn derive_key_spec(pass: Seq<u8>, salt: Seq<u8>) -> Seq<u8> {
    stretch_spec(blake3_of(pass + salt), salt, KEY_STRETCH_ROUNDS as nat)
}

/// Derives the symmetric key from a passphrase and a salt by iterated
/// hashing.
fn derive_key(pass: &[u8], salt: &[u8]) -> (r: Vec<u8>)
    ensures
        r@ == derive_key_spec(pass@, salt@),
        r@.len() == 32,
{
    let mut buf: Vec<u8> = Vec::new();
    buf.extend_from_slice(pass);
    buf.extend_from_slice(salt);
    proof {
        assert(buf@ =~= pass@ + salt@);
    }
    let mut key = blake3_digest(buf.as_slice());
    let mut round: u32 = 0;
    while round < KEY_STRETCH_ROUNDS
        invariant
            round <= KEY_STRETCH_ROUNDS,
            key@.len() == 32,
            derive_key_spec(pass@, salt@) == stretch_spec(
                key@,
                salt@,
                (KEY_STRETCH_ROUNDS - round) as nat,
            ),
        decreases KEY_STRETCH_ROUNDS - round,
    {
        let ghost prev = key@;
        let mut step: Vec<u8> = Vec::new();
        step.extend_from_slice(key.as_slice());
        step.extend_from_slice(salt);
        proof {
            assert(step@ =~= prev + salt@);
        }
        key = blake3_digest(step.as_slice());
        proof {
            assert(stretch_spec(prev, salt@, (KEY_STRETCH_ROUNDS - round) as nat)
                == stretch_spec(key@, salt@, (KEY_STRETCH_ROUNDS - round - 1) as nat));
        }
        round += 1;
    }
    key
}

/// What decrypting an envelope under a passphrase yields: `None` when the
/// envelope is too short or authentication fails, the plaintext otherwise.
pub open spec fn decrypt_spec(pass: Seq<u8>, data: Seq<u8>) -> Option<Seq<u8>> {
    if data.len() < ENVELOPE_HEADER_LEN {
        None
    } else {
        aes_gcm_open_of(
            derive_key_spec(pass, data.subrange(0, SALT_LEN as int)),
            data.subrange(SALT_LEN as int, ENVELOPE_HEADER_LEN as int),
            data.subrange(ENVELOPE_HEADER_LEN as int, data.len() as int),
        )
    }
}

/// Round trip: an envelope assembled from a salt, a nonce and an AEAD output
/// that opens to `plain` under the key derived from `pass` and that salt
/// decrypts to `plain`.  `Encryptor::encrypt` promises exactly such an
/// envelope of its output, and `Encryptor::decrypt` returns what
/// `decrypt_spec` names.
pub proof fn lemma_envelope_round_trip(
    pass: Seq<u8>,
    salt: Seq<u8>,
    nonce: Seq<u8>,
    cipher_text: Seq<u8>,
    plain: Seq<u8>,
)
    requires
        salt.len() == SALT_LEN,
        nonce.len() == NONCE_LEN,
        aes_gcm_open_of(derive_key_spec(pass, salt), nonce, cipher_text) == Some(plain),
    ensures
        decrypt_spec(pass, salt + nonce + cipher_text) == Some(plain),
{
    let env = salt + nonce + cipher_text;
    assert(env.subrange(0, SALT_LEN as int) =~= salt);
    assert(env.subrange(SALT_LEN as int, ENVELOPE_HEADER_LEN as int) =~= nonce);
    assert(env.subrange(ENVELOPE_HEADER_LEN as int, env.len() as int) =~= cipher_text);
}

/// Classified strength of a passphrase.
#[derive(Debug, Clone, Copy, PartialEq, Eq, Structural)]
pub enum PasswordStrength {
    Weak,
    Medium,
    Strong,
}

/// Some character of `s` is uppercase.
pub open spec fn has_upper(s: Seq<char>) -> bool {
    exists|i: int| 0 <= i < s.len() && char_is_upper(s[i])
}

/// Some character of `s` is lowercase.
pub open spec fn has_lower(s: Seq<char>) -> bool {
    exists|i: int| 0 <= i < s.len() && char_is_lower(s[i])
}

/// Some character of `s` is numeric.
pub open spec fn has_numeric(s: Seq<char>) -> bool {
    exists|i: int| 0 <= i < s.len() && char_is_numeric(s[i])
}

/// Some character of `s` is neither a letter nor a digit.
pub open spec fn has_special(s: Seq<char>) -> bool {
    exists|i: int| 0 <= i < s.len() && !char_is_alphanumeric(s[i])
}

/// One point each for: at least 8 bytes, at least 12 bytes, an uppercase
/// character, a lowercase character, a digit, a special character.
pub open spec fn strength_score(byte_len: nat, s: Seq<char>) -> int {
    (if byte_len >= 8 { 1int } else { 0int })
        + (if byte_len >= 12 { 1int } else { 0int })
        + (if has_upper(s) { 1int } else { 0int })
        + (if has_lower(s) { 1int } else { 0int })
        + (if has_numeric(s) { 1int } else { 0int })
        + (if has_special(s) { 1int } else { 0int })
}

/// A score of 0 to 2 is weak, 3 to 4 medium, 5 to 6 strong.
pub open spec fn strength_of(score: int) -> PasswordStrength {
    if score <= 2 {
        PasswordStrength::Weak
    } else if score <= 4 {
        PasswordStrength::Medium
    } else {
        PasswordStrength::Strong
    }
}

/// Encryption engine for one run, keeping the raw passphrase so that each
/// envelope can derive its key from a fresh salt.
pub struct Encryptor {
    passphrase: Vec<u8>,
}

impl View for Encryptor {
    type V = Seq<u8>;

    /// The UTF-8 bytes of the passphrase.
    closed spec fn view(&self) -> Seq<u8> {
        self.passphrase@
    }
}

impl Encryptor {
    /// Creates an encryption engine from a passphrase.
    pub fn new(password: &str) -> (r: Self)
        ensures
            r@ == password.spec_bytes(),
    {
        Encryptor { passphrase: password.as_bytes_vec() }
    }

    /// Encrypts a payload into a fresh envelope: `salt ‖ nonce ‖ ciphertext`.
    /// Every envelope returned decrypts back to the payload under the same
    /// passphrase.
    pub fn encrypt(&self, plaintext: &[u8]) -> (r: Result<Vec<u8>, CryptoError>)
        ensures
            r is Ok ==> (r->Ok_0)@.len() == plaintext@.len() + 60,
            r is Ok ==> decrypt_spec(self@, (r->Ok_0)@) == Some(plaintext@),
            r is Err ==> r->Err_0 == CryptoError::EncryptionFailed,
            plaintext@.len() <= AES_GCM_MAX_PLAIN_LEN ==> r is Ok,
    {
        let salt = random_bytes(SALT_LEN);
        let nonce = random_bytes(NONCE_LEN);
        let key = derive_key(self.passphrase.as_slice(), salt.as_slice());
        match aes_gcm_seal(key.as_slice(), nonce.as_slice(), plaintext) {
            Some(cipher_text) => {
                proof {
                    lemma_envelope_round_trip(
                        self@,
                        salt@,
                        nonce@,
                        cipher_text@,
                        plaintext@,
                    );
                }
                let mut out = salt;
                let mut rest = nonce;
                let mut tail = cipher_text;
                out.append(&mut rest);
                out.append(&mut tail);
                Ok(out)
            },
            None => Err(CryptoError::EncryptionFailed),
        }
    }

    /// Decrypts an envelope.  Fails with `InvalidFormat` when the envelope is
    /// shorter than its header, and with `DecryptionFailed` when
    /// authentication fails (a wrong passphrase or tampered bytes).
    pub fn decrypt(&self, data: &[u8]) -> (r: Result<Vec<u8>, CryptoError>)
        ensures
            data@.len() < ENVELOPE_HEADER_LEN ==> r == Err::<Vec<u8>, CryptoError>(
                CryptoError::InvalidFormat,
            ),
            data@.len() >= ENVELOPE_HEADER_LEN && decrypt_spec(self@, data@) is Some ==> r is Ok
                && Some((r->Ok_0)@) == decrypt_spec(self@, data@),
            data@.len() >= ENVELOPE_HEADER_LEN && decrypt_spec(self@, data@) is None ==> r
                == Err::<Vec<u8>, CryptoError>(CryptoError::DecryptionFailed),
    {
        if data.len() < ENVELOPE_HEADER_LEN {
            return Err(CryptoError::InvalidFormat);
        }
        let salt = slice_subrange(data, 0, SALT_LEN);
        let nonce = slice_subrange(data, SALT_LEN, ENVELOPE_HEADER_LEN);
        let cipher_text = slice_subrange(data, ENVELOPE_HEADER_LEN, data.len());
        let key = derive_key(self.passphrase.as_slice(), salt);
        match aes_gcm_open(key.as_slice(), nonce, cipher_text) {
            Some(plain) => Ok(plain),
            None => Err(CryptoError::DecryptionFailed),
        }
    }

    /// Classifies how strong a passphrase is.  The length points go by the
    /// UTF-8 byte length of the passphrase.
    pub fn check_password_strength(password: &str) -> (r: PasswordStrength)
        ensures
            r == strength_of(
                strength_score((password.spec_bytes().len() as usize) as nat, password@),
            ),
    {
        let byte_len = password.len();
        let chars = crate::text::to_chars(password);
        let (upper, lower, numeric, special) = scan_char_classes(&chars);
        let mut score: u32 = 0;
        if byte_len >= 8 {
            score += 1;
        }
        if byte_len >= 12 {
            score += 1;
        }
        if upper {
            score += 1;
        }
        if lower {
            score += 1;
        }
        if numeric {
            score += 1;
        }
        if special {
            score += 1;
        }
        if score <= 2 {
            PasswordStrength::Weak
        } else if score <= 4 {
            PasswordStrength::Medium
        } else {
            PasswordStrength::Strong
        }
    }
}

/// Reports in one pass whether the characters hold an uppercase letter, a
/// lowercase letter, a digit, and a character that is none of those.
pub fn scan_char_classes(chars: &Vec<char>) -> (r: (bool, bool, bool, bool))
    ensures
        r.0 == has_upper(chars@),
        r.1 == has_lower(chars@),
        r.2 == has_numeric(chars@),
        r.3 == has_special(chars@),
{
    let mut upper = false;
    let mut lower = false;
    let mut numeric = false;
    let mut special = false;
    let mut i: usize = 0;
    while i < chars.len()
        invariant
            i <= chars@.len(),
            upper == has_upper(chars@.subrange(0, i as int)),
            lower == has_lower(chars@.subrange(0, i as int)),
            numeric == has_numeric(chars@.subrange(0, i as int)),
            special == has_special(chars@.subrange(0, i as int)),
        decreases chars@.len() - i,
    {
        let c = chars[i];
        proof {
            let pre = chars@.subrange(0, i as int);
            let post = chars@.subrange(0, i + 1 as int);
            assert(post =~= pre.push(chars@[i as int]));
            lemma_class_flags_extend(pre, chars@[i as int]);
        }
        if c.is_uppercase() {
            upper = true;
        }
        if c.is_lowercase() {
            lower = true;
        }
        if c.is_numeric() {
            numeric = true;
        }
        if !c.is_alphanumeric() {
            special = true;
        }
        i += 1;
    }
    proof {
        assert(chars@.subrange(0, chars@.len() as int) =~= chars@);
    }
    (upper, lower, numeric, special)
}

proof fn lemma_class_flags_extend(s: Seq<char>, c: char)
    ensures
        has_upper(s.push(c)) == (has_upper(s) || char_is_upper(c)),
        has_lower(s.push(c)) == (has_lower(s) || char_is_lower(c)),
        has_numeric(s.push(c)) == (has_numeric(s) || char_is_numeric(c)),
        has_special(s.push(c)) == (has_special(s) || !char_is_alphanumeric(c)),
{
    let t = s.push(c);
    assert(t[s.len() as int] == c);
    assert(forall|i: int| 0 <= i < s.len() ==> t[i] == s[i]);
    if has_upper(s) {
        let i = choose|i: int| 0 <= i < s.len() && char_is_upper(s[i]);
        assert(char_is_upper(t[i]));
    }
    if has_lower(s) {
        let i = choose|i: int| 0 <= i < s.len() && char_is_lower(s[i]);
        assert(char_is_lower(t[i]));
    }
    if has_numeric(s) {
        let i = choose|i: int| 0 <= i < s.len() && char_is_numeric(s[i]);
        assert(char_is_numeric(t[i]));
    }
    if has_special(s) {
        let i = choose|i: int| 0 <= i < s.len() && !char_is_alphanumeric(s[i]);
        assert(!char_is_alphanumeric(t[i]));
    }
    if has_upper(t) {
        let i = choose|i: int| 0 <= i < t.len() && char_is_upper(t[i]);
        if i < s.len() {
            assert(char_is_upper(s[i]));
        }
    }
    if has_lower(t) {
        let i = choose|i: int| 0 <= i < t.len() && char_is_lower(t[i]);
        if i < s.len() {
            assert(char_is_lower(s[i]));
        }
    }
    if has_numeric(t) {
        let i = choose|i: int| 0 <= i < t.len() && char_is_numeric(t[i]);
        if i < s.len() {
            assert(char_is_numeric(s[i]));
        }
    }
    if has_special(t) {
        let i = choose|i: int| 0 <= i < t.len() && !char_is_alphanumeric(t[i]);
        if i < s.len() {
            assert(!char_is_alphanumeric(s[i]));
        }
    }
}

} // verus!
