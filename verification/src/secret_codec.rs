//! Local protection of stored secrets: a secret is encrypted with
//! AES-256-GCM under a 32-byte local key and a fresh 12-byte nonce, and
//! stored as `enc:v1:<nonce in base64>:<ciphertext in base64>`.
//!
//! Reading and writing the key and the secrets file is left to the caller.
use vstd::prelude::*;
use vstd::utf8::{decode_utf8, valid_utf8, encode_utf8};
use rand::RngExt;
use crate::text::{
    chars_of, extend_chars, extend_str, find_char, first_index_of, has_prefix, leading_ws, starts_with,
    str_eq, string_from_chars, trailing_ws, trim, trim_seq,
};

verus! {

// ---------------------------------------------------------------------------
// Outside functions
// ---------------------------------------------------------------------------

/// What `base64`'s `STANDARD` engine encodes `bytes` to.
pub uninterp spec fn b64_encode(bytes: Seq<u8>) -> Seq<char>;

/// What `base64`'s `STANDARD` engine decodes `text` to, if it is valid.
pub uninterp spec fn b64_decode(text: Seq<char>) -> Option<Seq<u8>>;

/// What AES-256-GCM (no associated data) seals `plaintext` to.
pub uninterp spec fn aes_seal(key: Seq<u8>, nonce: Seq<u8>, plaintext: Seq<u8>) -> Seq<u8>;

/// What AES-256-GCM (no associated data) opens `ciphertext` to, if it
/// authenticates.
pub uninterp spec fn aes_open(key: Seq<u8>, nonce: Seq<u8>, ciphertext: Seq<u8>) -> Option<Seq<u8>>;

/// A character of the standard base64 alphabet, or the padding `=`.
pub open spec fn is_b64_char(c: char) -> bool {
    ('A' <= c && c <= 'Z') || ('a' <= c && c <= 'z') || ('0' <= c && c <= '9') || c == '+' || c == '/' || c == '='
}

/// `base64::Engine::encode` on `general_purpose::STANDARD`: the padded
/// standard encoding, made of alphabet characters only, which decodes back
/// to the input.
#[verifier::external_body]
fn base64_encode(bytes: &[u8]) -> (r: String)
    requires
        bytes@.len() < usize::MAX / 4,
    ensures
        r@ == b64_encode(bytes@),
        b64_decode(r@) == Some(bytes@),
        forall|i: int| 0 <= i < r@.len() ==> is_b64_char(#[trigger] r@[i]),
{
    base64::Engine::encode(&base64::engine::general_purpose::STANDARD, bytes)
}

/// `base64::Engine::decode` on `general_purpose::STANDARD`: the decoded
/// bytes, or the decoding error's text.
#[verifier::external_body]
fn base64_decode(text: &str) -> (r: Result<Vec<u8>, String>)
    ensures
        r is Ok <==> b64_decode(text@) is Some,
        r matches Ok(v) ==> v@ == b64_decode(text@)->0,
{
    match base64::Engine::decode(&base64::engine::general_purpose::STANDARD, text) {
        Ok(v) => Ok(v),
        Err(e) => Err(e.to_string()),
    }
}

/// The longest plaintext AES-GCM seals: `aes_gcm::P_MAX`, 2^36 bytes.
pub open spec fn aes_gcm_max_plaintext() -> int {
    0x10_0000_0000
}

/// `Aes256Gcm::new_from_slice` then `Aead::encrypt`: the ciphertext with
/// its tag, which opens back to the plaintext under the same key and
/// nonce, or the error's text. A 32-byte key is always accepted, and
/// sealing fails only for a plaintext longer than `P_MAX`.
#[verifier::external_body]
fn aes_encrypt(key: &[u8], nonce: &[u8], plaintext: &[u8]) -> (r: Result<Vec<u8>, String>)
    requires
        key@.len() == 32,
        nonce@.len() == 12,
    ensures
        plaintext@.len() <= aes_gcm_max_plaintext() ==> r is Ok,
        r matches Ok(c) ==> c@ == aes_seal(key@, nonce@, plaintext@) && aes_open(key@, nonce@, c@) == Some(
            plaintext@,
        ) && c@.len() == plaintext@.len() + 16,
{
    let cipher = match <aes_gcm::Aes256Gcm as aes_gcm::aead::KeyInit>::new_from_slice(key) {
        Ok(c) => c,
        Err(e) => return Err(e.to_string()),
    };
    match aes_gcm::aead::Aead::encrypt(&cipher, aes_gcm::Nonce::from_slice(nonce), plaintext) {
        Ok(c) => Ok(c),
        Err(e) => Err(e.to_string()),
    }
}

/// `Aes256Gcm::new_from_slice` then `Aead::decrypt`: the plaintext when the
/// ciphertext authenticates, else the error's text.
#[verifier::external_body]
fn aes_decrypt(key: &[u8], nonce: &[u8], ciphertext: &[u8]) -> (r: Result<Vec<u8>, String>)
    requires
        key@.len() == 32,
        nonce@.len() == 12,
    ensures
        r is Ok <==> aes_open(key@, nonce@, ciphertext@) is Some,
        r matches Ok(p) ==> p@ == aes_open(key@, nonce@, ciphertext@)->0,
{
    let cipher = match <aes_gcm::Aes256Gcm as aes_gcm::aead::KeyInit>::new_from_slice(key) {
        Ok(c) => c,
        Err(e) => return Err(e.to_string()),
    };
    match aes_gcm::aead::Aead::decrypt(&cipher, aes_gcm::Nonce::from_slice(nonce), ciphertext) {
        Ok(p) => Ok(p),
        Err(e) => Err(e.to_string()),
    }
}

/// `String::from_utf8`: the string when the bytes are valid UTF-8, else
/// the error's text.
#[verifier::external_body]
fn string_from_utf8(bytes: Vec<u8>) -> (r: Result<String, String>)
    ensures
        r is Ok <==> valid_utf8(bytes@),
        r matches Ok(s) ==> s@ == decode_utf8(bytes@),
{
    match String::from_utf8(bytes) {
        Ok(s) => Ok(s),
        Err(e) => Err(e.to_string()),
    }
}

/// `rand::rng().fill(..)`: the buffer filled with random bytes; nothing is
/// said of them but their number.
#[verifier::external_body]
fn fill_random(buf: &mut Vec<u8>)
    ensures
        final(buf)@.len() == old(buf)@.len(),
{
    rand::rng().fill(buf.as_mut_slice());
}

// ---------------------------------------------------------------------------
// Errors
// ---------------------------------------------------------------------------

#[derive(Debug, Clone, Copy, PartialEq, Eq, Structural)]
pub enum SecretErrorKind {
    InvalidPayload,
    MissingNonce,
    NonceEncoding,
    NonceLength,
    MissingCiphertext,
    CiphertextEncoding,
    Decrypt,
    NotUtf8,
    NotConfigured,
    Missing,
    KeyEncoding,
    KeyLength,
    Encrypt,
}

/// Why a secret could not be read or written, with the underlying detail
/// where there is one.
#[derive(Debug, Clone)]
pub struct SecretError {
    pub kind: SecretErrorKind,
    pub detail: String,
}

impl SecretError {
    /// Whether the error means that no secret is configured (as opposed to
    /// a storage failure).
    pub fn is_auth(&self) -> (r: bool)
        ensures
            r == (self.kind == SecretErrorKind::NotConfigured || self.kind == SecretErrorKind::Missing),
    {
        self.kind == SecretErrorKind::NotConfigured || self.kind == SecretErrorKind::Missing
    }

    /// The text of the error.
    pub fn message(&self) -> (r: String)
        ensures
            r@ == error_text(self.kind, self.detail@),
    {
        let mut cs: Vec<char> = Vec::new();
        let d = chars_of(self.detail.as_str());
        match self.kind {
            SecretErrorKind::InvalidPayload => extend_str(&mut cs, "Invalid encrypted secret payload"),
            SecretErrorKind::MissingNonce => extend_str(&mut cs, "Encrypted secret payload missing nonce"),
            SecretErrorKind::NonceEncoding => {
                extend_str(&mut cs, "Cannot decode secret nonce: ");
                extend_chars(&mut cs, &d);
            },
            SecretErrorKind::NonceLength => extend_str(&mut cs, "Encrypted secret nonce has invalid length"),
            SecretErrorKind::MissingCiphertext => extend_str(&mut cs, "Encrypted secret payload missing ciphertext"),
            SecretErrorKind::CiphertextEncoding => {
                extend_str(&mut cs, "Cannot decode encrypted secret: ");
                extend_chars(&mut cs, &d);
            },
            SecretErrorKind::Decrypt => {
                extend_str(&mut cs, "Cannot decrypt secret: ");
                extend_chars(&mut cs, &d);
            },
            SecretErrorKind::NotUtf8 => {
                extend_str(&mut cs, "Decrypted secret is not valid UTF-8: ");
                extend_chars(&mut cs, &d);
            },
            SecretErrorKind::NotConfigured => extend_str(&mut cs, "Secret not configured"),
            SecretErrorKind::Missing => extend_str(&mut cs, "API key not configured"),
            SecretErrorKind::KeyEncoding => {
                extend_str(&mut cs, "Cannot decode local secret key ");
                extend_chars(&mut cs, &d);
            },
            SecretErrorKind::KeyLength => {
                extend_str(&mut cs, "Local secret key ");
                extend_chars(&mut cs, &d);
                extend_str(&mut cs, " has invalid length");
            },
            SecretErrorKind::Encrypt => {
                extend_str(&mut cs, "Cannot encrypt secret value: ");
                extend_chars(&mut cs, &d);
            },
        }
        string_from_chars(&cs)
    }
}

pub open spec fn error_text(kind: SecretErrorKind, detail: Seq<char>) -> Seq<char> {
    match kind {
        SecretErrorKind::InvalidPayload => "Invalid encrypted secret payload"@,
        SecretErrorKind::MissingNonce => "Encrypted secret payload missing nonce"@,
        SecretErrorKind::NonceEncoding => "Cannot decode secret nonce: "@ + detail,
        SecretErrorKind::NonceLength => "Encrypted secret nonce has invalid length"@,
        SecretErrorKind::MissingCiphertext => "Encrypted secret payload missing ciphertext"@,
        SecretErrorKind::CiphertextEncoding => "Cannot decode encrypted secret: "@ + detail,
        SecretErrorKind::Decrypt => "Cannot decrypt secret: "@ + detail,
        SecretErrorKind::NotUtf8 => "Decrypted secret is not valid UTF-8: "@ + detail,
        SecretErrorKind::NotConfigured => "Secret not configured"@,
        SecretErrorKind::Missing => "API key not configured"@,
        SecretErrorKind::KeyEncoding => "Cannot decode local secret key "@ + detail,
        SecretErrorKind::KeyLength => "Local secret key "@ + detail + " has invalid length"@,
        SecretErrorKind::Encrypt => "Cannot encrypt secret value: "@ + detail,
    }
}

pub(crate) fn fail<T>(kind: SecretErrorKind, detail: String) -> (r: Result<T, SecretError>)
    ensures
        r matches Err(e) && e.kind == kind && e.detail == detail,
{
    Err(SecretError { kind, detail })
}

// ---------------------------------------------------------------------------
// Values and payloads
// ---------------------------------------------------------------------------

/// A stored secret value: trimmed, and absent when blank.
pub open spec fn normalized_secret(value: Seq<char>) -> Option<Seq<char>> {
    if trim_seq(value).len() == 0 {
        None
    } else {
        Some(trim_seq(value))
    }
}

pub fn normalize_secret_value(value: &str) -> (r: Option<String>)
    ensures
        match normalized_secret(value@) {
            Some(v) => r matches Some(s) && s@ == v,
            None => r is None,
        },
{
    let t = trim(value);
    if t.unicode_len() == 0 {
        return None;
    }
    proof {
        broadcast use vstd::string::group_string_axioms;

    }
    Some(t.to_string())
}

/// The fields of `s` between the separators `c`, as `str::split` gives them.
#[verifier::opaque]
pub open spec fn fields(s: Seq<char>, c: char) -> Seq<Seq<char>>
    decreases s.len(),
{
    match first_index_of(s, c) {
        Some(i) => if 0 <= i < s.len() {
            seq![s.take(i)] + fields(s.skip(i + 1), c)
        } else {
            seq![s]
        },
        None => seq![s],
    }
}

proof fn lemma_fields_step(s: Seq<char>, c: char, k: int)
    requires
        0 <= k < s.len(),
        s[k] == c,
        forall|j: int| 0 <= j < k ==> s[j] != c,
    ensures
        fields(s, c) == seq![s.take(k)] + fields(s.skip(k + 1), c),
{
    lemma_first_index(s, c, k);
    reveal(fields);
}

proof fn lemma_fields_last(s: Seq<char>, c: char)
    requires
        forall|j: int| 0 <= j < s.len() ==> s[j] != c,
    ensures
        fields(s, c) == seq![s],
{
    reveal(fields);
}

proof fn lemma_first_index(s: Seq<char>, c: char, k: int)
    requires
        0 <= k < s.len(),
        s[k] == c,
        forall|j: int| 0 <= j < k ==> s[j] != c,
    ensures
        first_index_of(s, c) == Some(k),
{
    let i = choose|i: int| 0 <= i < s.len() && s[i] == c && forall|j: int| 0 <= j < i ==> s[j] != c;
    assert(0 <= i < s.len() && s[i] == c && forall|j: int| 0 <= j < i ==> s[j] != c);
    if i < k {
        assert(s[i] != c);
    }
    if k < i {
        assert(s[k] != c);
    }
}

/// `str::split(c)`, collected.
pub fn split_fields(s: &str, c: char) -> (r: Vec<String>)
    ensures
        r@.len() == fields(s@, c).len(),
        forall|i: int| 0 <= i < r@.len() ==> #[trigger] r@[i]@ == fields(s@, c)[i],
{
    let cs = chars_of(s);
    let mut out: Vec<String> = Vec::new();
    let mut start: usize = 0;
    let n = cs.len();
    let ghost whole = s@;
    assert(whole.skip(0) =~= whole);
    loop
        invariant
            whole == s@,
            cs@ == whole,
            n == whole.len(),
            start <= n,
            forall|i: int| 0 <= i < out@.len() ==> #[trigger] out@[i]@ == fields(whole, c)[i],
            out@.len() + fields(whole.skip(start as int), c).len() == fields(whole, c).len(),
            forall|i: int| 0 <= i < fields(whole.skip(start as int), c).len() ==> #[trigger] fields(whole.skip(start as int), c)[i] == fields(whole, c)[out@.len() + i],
        decreases n - start,
    {
        let rest = vstd::slice::slice_subrange(cs.as_slice(), start, n);
        let ghost rs = whole.skip(start as int);
        assert(rest@ =~= rs);
        match find_char(rest, c) {
            Some(k) => {
                proof {
                    lemma_fields_step(rs, c, k as int);
                    assert(rs.skip(k + 1) =~= whole.skip(start + k + 1));
                }
                let field = string_from_chars(vstd::slice::slice_subrange(cs.as_slice(), start, start + k));
                proof {
                    assert(field@ =~= rs.take(k as int));
                }
                let ghost o = out@;
                out.push(field);
                start = start + k + 1;
                proof {
                    assert forall|i: int| 0 <= i < out@.len() implies #[trigger] out@[i]@ == fields(whole, c)[i] by {
                        if i == o.len() {
                            assert(fields(rs, c)[0] == rs.take(k as int));
                        }
                    }
                    let rs2 = whole.skip(start as int);
                    assert forall|i: int| 0 <= i < fields(rs2, c).len() implies #[trigger] fields(rs2, c)[i] == fields(whole, c)[out@.len() + i] by {
                        assert(fields(rs, c)[i + 1] == fields(rs2, c)[i]);
                    }
                }
            },
            None => {
                proof {
                    lemma_fields_last(rs, c);
                    assert(fields(rs, c).len() == 1);
                    assert(fields(rs, c)[0] == fields(whole, c)[out@.len() as int + 0]);
                }
                let field = string_from_chars(rest);
                let ghost o = out@;
                out.push(field);
                assert(out@.len() == fields(whole, c).len());
                proof {
                    assert forall|i: int| 0 <= i < out@.len() implies #[trigger] out@[i]@ == fields(whole, c)[i] by {
                        if i == o.len() {
                            assert(fields(rs, c)[0] == rs);
                        }
                    }
                }
                return out;
            },
        }
    }
}

/// The payload of an encrypted secret: `enc:v1:<nonce>:<ciphertext>`.
pub open spec fn sealed_payload(nonce: Seq<u8>, ciphertext: Seq<u8>) -> Seq<char> {
    "enc:v1:"@ + b64_encode(nonce) + ":"@ + b64_encode(ciphertext)
}

/// What reading a stored encrypted secret under `key` gives: the
/// envelope must be `enc`, `v1` and at most two more fields; then the
/// nonce (12 bytes once decoded) and the ciphertext are decoded, the
/// ciphertext opened, the plaintext read as UTF-8 and normalised. Each
/// step's failure is its own error.
pub open spec fn decrypt_spec(key: Seq<u8>, value: Seq<char>) -> Result<Seq<char>, SecretErrorKind> {
    let fs = fields(trim_seq(value), ':');
    if !(fs[0] == "enc"@ && fs.len() >= 2 && fs[1] == "v1"@ && fs.len() <= 4) {
        Err(SecretErrorKind::InvalidPayload)
    } else if fs.len() < 3 {
        Err(SecretErrorKind::MissingNonce)
    } else {
        match b64_decode(fs[2]) {
            None => Err(SecretErrorKind::NonceEncoding),
            Some(nonce) => if nonce.len() != 12 {
                Err(SecretErrorKind::NonceLength)
            } else if fs.len() < 4 {
                Err(SecretErrorKind::MissingCiphertext)
            } else {
                match b64_decode(fs[3]) {
                    None => Err(SecretErrorKind::CiphertextEncoding),
                    Some(ct) => match aes_open(key, nonce, ct) {
                        None => Err(SecretErrorKind::Decrypt),
                        Some(pt) => if !valid_utf8(pt) {
                            Err(SecretErrorKind::NotUtf8)
                        } else {
                            match normalized_secret(decode_utf8(pt)) {
                                Some(v) => Ok(v),
                                None => Err(SecretErrorKind::NotConfigured),
                            }
                        },
                    },
                }
            },
        }
    }
}

/// Reads a stored encrypted secret under `key` (see `decrypt_spec`).
pub fn decrypt_secret(key: &[u8], value: &str) -> (r: Result<String, SecretError>)
    requires
        key@.len() == 32,
    ensures
        match decrypt_spec(key@, value@) {
            Ok(v) => r matches Ok(s) && s@ == v,
            Err(k) => r matches Err(e) && e.kind == k,
        },
{
    let payload = trim(value);
    let parts = split_fields(payload, ':');
    let ghost fs = fields(payload@, ':');
    proof {
        lemma_fields_nonempty(payload@, ':');
    }
    let envelope_ok = str_eq(parts[0].as_str(), "enc") && parts.len() >= 2 && str_eq(parts[1].as_str(), "v1")
        && parts.len() <= 4;
    if !envelope_ok {
        return fail(SecretErrorKind::InvalidPayload, String::new());
    }
    if parts.len() < 3 {
        return fail(SecretErrorKind::MissingNonce, String::new());
    }
    let nonce = match base64_decode(parts[2].as_str()) {
        Ok(n) => n,
        Err(e) => {
            return fail(SecretErrorKind::NonceEncoding, e);
        },
    };
    if nonce.len() != 12 {
        return fail(SecretErrorKind::NonceLength, String::new());
    }
    if parts.len() < 4 {
        return fail(SecretErrorKind::MissingCiphertext, String::new());
    }
    let ciphertext = match base64_decode(parts[3].as_str()) {
        Ok(c) => c,
        Err(e) => {
            return fail(SecretErrorKind::CiphertextEncoding, e);
        },
    };
    let plaintext = match aes_decrypt(key, nonce.as_slice(), ciphertext.as_slice()) {
        Ok(p) => p,
        Err(e) => {
            return fail(SecretErrorKind::Decrypt, e);
        },
    };
    let text = match string_from_utf8(plaintext) {
        Ok(t) => t,
        Err(e) => {
            return fail(SecretErrorKind::NotUtf8, e);
        },
    };
    match normalize_secret_value(text.as_str()) {
        Some(v) => Ok(v),
        None => fail(SecretErrorKind::NotConfigured, String::new()),
    }
}

proof fn lemma_fields_nonempty(s: Seq<char>, c: char)
    ensures
        fields(s, c).len() >= 1,
{
    reveal(fields);
}

/// Seals `value` under `key` and `nonce` into a stored payload, which
/// reads back (see `decrypt_spec`) as the normalised value.
pub fn encrypt_with_nonce(key: &[u8], nonce: &[u8], value: &str) -> (r: Result<String, SecretError>)
    requires
        key@.len() == 32,
        nonce@.len() == 12,
        encode_utf8(value@).len() < usize::MAX / 8,
    ensures
        r matches Ok(s) ==> s@ == sealed_payload(nonce@, aes_seal(key@, nonce@, encode_utf8(value@))),
        r matches Ok(s) ==> decrypt_spec(key@, s@) == match normalized_secret(value@) {
            Some(v) => Ok::<Seq<char>, SecretErrorKind>(v),
            None => Err(SecretErrorKind::NotConfigured),
        },
        r matches Ok(s) ==> has_prefix(s@, "enc:v1:"@),
        r matches Err(e) ==> e.kind == SecretErrorKind::Encrypt,
        encode_utf8(value@).len() <= aes_gcm_max_plaintext() ==> r is Ok,
{
    let bytes = value.as_bytes();
    let ciphertext = match aes_encrypt(key, nonce, bytes) {
        Ok(c) => c,
        Err(e) => {
            return fail(SecretErrorKind::Encrypt, e);
        },
    };
    let mut cs: Vec<char> = Vec::new();
    extend_str(&mut cs, "enc:v1:");
    let n = base64_encode(nonce);
    extend_str(&mut cs, n.as_str());
    extend_str(&mut cs, ":");
    let c = base64_encode(ciphertext.as_slice());
    extend_str(&mut cs, c.as_str());
    let out = string_from_chars(&cs);
    proof {
        vstd::utf8::encode_utf8_valid_utf8(value@);
        vstd::utf8::encode_utf8_decode_utf8(value@);
        lemma_sealed_fields(n@, c@);
        lemma_sealed_trim(n@, c@);
        assert(out@ == "enc:v1:"@ + n@ + ":"@ + c@);
        assert(out@.take(("enc:v1:"@).len() as int) =~= "enc:v1:"@);
    }
    Ok(out)
}

proof fn lemma_sealed_trim(n: Seq<char>, c: Seq<char>)
    requires
        forall|i: int| 0 <= i < c.len() ==> is_b64_char(#[trigger] c[i]),
    ensures
        trim_seq("enc:v1:"@ + n + ":"@ + c) == "enc:v1:"@ + n + ":"@ + c,
{
    reveal_strlit("enc:v1:");
    reveal_strlit(":");
    let s0 = "enc:v1:"@ + n + ":"@ + c;
    assert(s0[0] == 'e');
    if c.len() > 0 {
        assert(s0.last() == c[c.len() - 1]);
        assert(is_b64_char(c[c.len() - 1]));
    } else {
        assert(s0.last() == ':');
    }
    assert(leading_ws(s0) == 0);
    assert(s0.skip(0) =~= s0);
    assert(trailing_ws(s0) == 0);
    assert(s0.take(s0.len() as int) =~= s0);
}

proof fn lemma_tail_fields(n: Seq<char>, c: Seq<char>)
    requires
        forall|i: int| 0 <= i < n.len() ==> is_b64_char(#[trigger] n[i]),
        forall|i: int| 0 <= i < c.len() ==> is_b64_char(#[trigger] c[i]),
    ensures
        fields(n + ":"@ + c, ':') == seq![n, c],
{
    reveal_strlit(":");
    let s2 = n + ":"@ + c;
    assert forall|j: int| 0 <= j < n.len() implies s2[j] != ':' by {
        assert(s2[j] == n[j]);
        assert(is_b64_char(n[j]));
    }
    assert(s2[n.len() as int] == ':');
    lemma_fields_step(s2, ':', n.len() as int);
    assert(s2.take(n.len() as int) =~= n);
    let s3 = s2.skip(n.len() as int + 1);
    assert(s3 =~= c);
    assert forall|j: int| 0 <= j < s3.len() implies s3[j] != ':' by {
        assert(s3[j] == c[j]);
        assert(is_b64_char(c[j]));
    }
    lemma_fields_last(s3, ':');
    assert(seq![n] + seq![c] =~= seq![n, c]);
}

proof fn lemma_sealed_fields(n: Seq<char>, c: Seq<char>)
    requires
        forall|i: int| 0 <= i < n.len() ==> is_b64_char(#[trigger] n[i]),
        forall|i: int| 0 <= i < c.len() ==> is_b64_char(#[trigger] c[i]),
    ensures
        fields("enc:v1:"@ + n + ":"@ + c, ':') == seq!["enc"@, "v1"@, n, c],
{
    reveal_strlit("enc:v1:");
    reveal_strlit("enc");
    reveal_strlit("v1");
    let rest = n + ":"@ + c;
    let s0 = "enc:v1:"@ + n + ":"@ + c;
    assert(s0 =~= "enc:v1:"@ + rest);
    assert(s0[3] == ':');
    lemma_fields_step(s0, ':', 3);
    assert(s0.take(3) =~= "enc"@);
    let s1 = s0.skip(4);
    assert(s1 =~= seq!['v', '1', ':'] + rest);
    assert(s1[2] == ':');
    lemma_fields_step(s1, ':', 2);
    assert(s1.take(2) =~= "v1"@);
    assert(s1.skip(3) =~= rest);
    lemma_tail_fields(n, c);
    assert(seq!["enc"@] + (seq!["v1"@] + seq![n, c]) =~= seq!["enc"@, "v1"@, n, c]);
}

// ---------------------------------------------------------------------------
// The local key and fresh secrets
// ---------------------------------------------------------------------------

/// The local key stored as text: the trimmed text decoded from base64,
/// when it gives exactly 32 bytes.
pub open spec fn key_from_text(raw: Seq<char>) -> Option<Seq<u8>> {
    match b64_decode(trim_seq(raw)) {
        Some(k) => if k.len() == 32 {
            Some(k)
        } else {
            None
        },
        None => None,
    }
}

/// Reads the local key file's contents (`path` names the file in errors).
pub fn decode_secret_key(raw: &str, path: &str) -> (r: Result<Vec<u8>, SecretError>)
    ensures
        match key_from_text(raw@) {
            Some(k) => r matches Ok(v) && v@ == k,
            None => r matches Err(e) && (e.kind == SecretErrorKind::KeyEncoding || e.kind == SecretErrorKind::KeyLength),
        },
        r is Err ==> (r->Err_0.kind == SecretErrorKind::KeyEncoding <==> b64_decode(trim_seq(raw@)) is None),
        r is Err && r->Err_0.kind == SecretErrorKind::KeyLength ==> r->Err_0.detail@ == path@,
{
    let text = trim(raw);
    match base64_decode(text) {
        Ok(k) => {
            if k.len() != 32 {
                return fail(SecretErrorKind::KeyLength, path.to_string());
            }
            Ok(k)
        },
        Err(e) => {
            let mut cs: Vec<char> = Vec::new();
            extend_str(&mut cs, path);
            extend_str(&mut cs, ": ");
            extend_str(&mut cs, e.as_str());
            fail(SecretErrorKind::KeyEncoding, string_from_chars(&cs))
        },
    }
}

/// A fresh random local key and the text to store it as, which reads back
/// as the same key.
pub fn new_secret_key() -> (r: (Vec<u8>, String))
    ensures
        r.0@.len() == 32,
        r.1@ == b64_encode(r.0@),
        key_from_text(r.1@) == Some(r.0@),
{
    let mut key: Vec<u8> = vec![0u8; 32];
    fill_random(&mut key);
    let encoded = base64_encode(key.as_slice());
    proof {
        lemma_b64_trim(encoded@);
    }
    (key, encoded)
}

proof fn lemma_b64_trim(t: Seq<char>)
    requires
        forall|i: int| 0 <= i < t.len() ==> is_b64_char(#[trigger] t[i]),
    ensures
        trim_seq(t) == t,
{
    if t.len() > 0 {
        assert(is_b64_char(t[0]));
        assert(is_b64_char(t[t.len() - 1]));
    }
    assert(leading_ws(t) == 0);
    assert(t.skip(0) =~= t);
    assert(trailing_ws(t) == 0);
    assert(t.take(t.len() as int) =~= t);
}

/// Encrypts a secret under `key` with a fresh random nonce; the payload
/// reads back (see `decrypt_spec`) as the normalised value.
pub fn encrypt_secret(key: &[u8], value: &str) -> (r: Result<String, SecretError>)
    requires
        key@.len() == 32,
        encode_utf8(value@).len() < usize::MAX / 8,
    ensures
        r matches Ok(s) ==> decrypt_spec(key@, s@) == match normalized_secret(value@) {
            Some(v) => Ok::<Seq<char>, SecretErrorKind>(v),
            None => Err(SecretErrorKind::NotConfigured),
        },
        r matches Ok(s) ==> exists|nonce: Seq<u8>| nonce.len() == 12 && s@ == sealed_payload(
            nonce,
            aes_seal(key@, nonce, encode_utf8(value@)),
        ),
        r matches Ok(s) ==> has_prefix(s@, "enc:v1:"@),
        r matches Err(e) ==> e.kind == SecretErrorKind::Encrypt,
        encode_utf8(value@).len() <= aes_gcm_max_plaintext() ==> r is Ok,
{
    let mut nonce: Vec<u8> = vec![0u8; 12];
    fill_random(&mut nonce);
    encrypt_with_nonce(key, nonce.as_slice(), value)
}

/// The secrets file's old single-secret form.
#[derive(Debug, Clone)]
pub enum LegacySecret {
    /// Nothing usable: blank, or the file holds a secrets document.
    Absent,
    /// An encrypted payload, to decrypt.
    Encrypted(String),
    /// A plain secret value.
    Plain(String),
}

/// Classifies the trimmed contents of the secrets file when it is not a
/// secrets document: blank is nothing, text starting with `enc:v1` is
/// encrypted, anything else is the secret itself.
pub fn classify_legacy_secret(contents: &str, is_document: bool) -> (r: LegacySecret)
    ensures
        trim_seq(contents@).len() == 0 || is_document ==> r is Absent,
        !(trim_seq(contents@).len() == 0 || is_document) ==> match r {
            LegacySecret::Encrypted(s) => has_prefix(trim_seq(contents@), "enc:v1"@) && s@ == trim_seq(contents@),
            LegacySecret::Plain(s) => !has_prefix(trim_seq(contents@), "enc:v1"@) && s@ == trim_seq(contents@),
            LegacySecret::Absent => false,
        },
{
    let trimmed = trim(contents);
    if trimmed.unicode_len() == 0 || is_document {
        return LegacySecret::Absent;
    }
    let cs = chars_of(trimmed);
    let prefix = chars_of("enc:v1");
    proof {
        broadcast use vstd::string::group_string_axioms;

    }
    if starts_with(&cs, &prefix) {
        LegacySecret::Encrypted(trimmed.to_string())
    } else {
        LegacySecret::Plain(trimmed.to_string())
    }
}

} // verus!
