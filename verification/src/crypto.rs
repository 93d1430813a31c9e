//! The Apple-Challenge/Apple-Response computation, the session key, and the
//! digest of the classic AirPlay 1 password.
//!
//! Clients prove that they talk to an AirPort by sending up to 16 random bytes
//! in an `Apple-Challenge` header; the receiver signs them, with its address
//! and its MAC, with the AirPort Express key and returns the signature in
//! `Apple-Response`. The key is handed in as PKCS#1 PEM text.

use base64::engine::general_purpose::{STANDARD, STANDARD_NO_PAD};
use base64::Engine;
use md5::{Digest, Md5};
use rsa::pkcs1::DecodeRsaPrivateKey;
use rsa::traits::PrivateKeyParts;
use rsa::{Oaep, Pkcs1v15Sign, RsaPrivateKey};
use vstd::prelude::*;
use vstd::utf8::*;

use crate::net::IpAddr;
use crate::number;
use crate::number::{push_decimal, to_hex};
use crate::text;
use crate::text::{chars_of, string_of, trim, trim_end_matches};

verus! {

/// What the unpadded standard base64 decoder makes of a text.
pub uninterp spec fn base64_decoded(text: Seq<char>) -> Option<Seq<u8>>;

/// `base64::engine::general_purpose::STANDARD_NO_PAD.decode`: the bytes that a
/// text stands for in unpadded standard base64, or none where it is an error;
/// which it is, and which bytes, is a function of the text.
#[verifier::external_body]
fn base64_decode(text: &str) -> (bytes: Option<Vec<u8>>)
    ensures
        bytes is Some <==> base64_decoded(text@) is Some,
        bytes is Some ==> bytes->0@ == base64_decoded(text@)->0,
{
    STANDARD_NO_PAD.decode(text).ok()
}

/// What the unpadded standard base64 encoder makes of some bytes.
pub uninterp spec fn base64_unpadded(bytes: Seq<u8>) -> Seq<char>;

/// `base64::engine::general_purpose::STANDARD_NO_PAD.encode`: the unpadded
/// standard base64 of some bytes. It holds no padding, and decodes to the
/// bytes.
#[verifier::external_body]
fn base64_encode(bytes: &[u8]) -> (text: String)
    ensures
        text@ == base64_unpadded(bytes@),
        base64_decoded(text@) == Some(bytes@),
        forall|i: int| 0 <= i < text@.len() ==> #[trigger] text@[i] != '=',
{
    STANDARD_NO_PAD.encode(bytes)
}

/// What the padded standard base64 encoder makes of some bytes.
pub uninterp spec fn base64_padded(bytes: Seq<u8>) -> Seq<char>;

/// `base64::engine::general_purpose::STANDARD.encode`: the padded standard
/// base64 of some bytes. Its characters are letters, digits, `+`, `/` and `=`;
/// in particular none is a quotation mark.
#[verifier::external_body]
pub(crate) fn base64_encode_padded(bytes: &[u8]) -> (text: String)
    ensures
        text@ == base64_padded(bytes@),
        forall|i: int| 0 <= i < text@.len() ==> #[trigger] text@[i] != '"',
{
    STANDARD.encode(bytes)
}

/// The bit lengths of the two factors of the private key of a PEM text, in the
/// order in which it gives them; none if the text holds no key.
pub uninterp spec fn rsa_factor_bits(key_pem: Seq<char>) -> Option<(usize, usize)>;

/// `rsa::RsaPrivateKey::from_pkcs1_pem`, with the bit lengths of the first two of
/// `PrivateKeyParts::primes`: they are a function of the PEM text, as is whether
/// it holds a key. A key has at least two factors.
#[verifier::external_body]
fn rsa_factors(key_pem: &str) -> (bits: Option<(usize, usize)>)
    ensures
        bits == rsa_factor_bits(key_pem@),
{
    let key = RsaPrivateKey::from_pkcs1_pem(key_pem).ok()?;
    Some((key.primes()[0].bits(), key.primes()[1].bits()))
}

/// Whether the private key of a PEM text, if it holds one, has factors that it
/// can be used with: the second is at most one bit longer than the first. The
/// `rsa` crate adds the first to a difference of remainders until that is not
/// negative, which takes as long as the second is larger.
pub open spec fn has_like_factors(key_pem: Seq<char>) -> bool {
    match rsa_factor_bits(key_pem) {
        Some((first, second)) => second <= first + 1,
        None => true,
    }
}

/// Whether a key has factors that it can be used with.
pub fn check_factors(key_pem: &str) -> (alike: bool)
    ensures
        alike == has_like_factors(key_pem@),
{
    match rsa_factors(key_pem) {
        Some((first, second)) => second <= first || second - first <= 1,
        None => true,
    }
}

/// The PKCS#1 v1.5 signature (without a digest prefix) of a message under the
/// private key of a PEM text; none if the text holds no key, or the key is too
/// short for the message.
pub uninterp spec fn rsa_signature(key_pem: Seq<char>, message: Seq<u8>) -> Option<Seq<u8>>;

/// `rsa::RsaPrivateKey::from_pkcs1_pem` and `RsaPrivateKey::sign` with
/// `Pkcs1v15Sign::new_unprefixed`: the signature is a function of the key's PEM
/// text and the message, as is whether there is one. The key's factors must be
/// of like size, or signing may not end.
#[verifier::external_body]
fn rsa_sign(key_pem: &str, message: &[u8]) -> (signature: Option<Vec<u8>>)
    requires
        has_like_factors(key_pem@),
    ensures
        signature is Some <==> rsa_signature(key_pem@, message@) is Some,
        signature is Some ==> signature->0@ == rsa_signature(key_pem@, message@)->0,
{
    let key = RsaPrivateKey::from_pkcs1_pem(key_pem).ok()?;
    key.sign(Pkcs1v15Sign::new_unprefixed(), message).ok()
}

/// What RSA-OAEP decryption (SHA-1 for hash and mask) under the private key of
/// a PEM text makes of a ciphertext; nothing if either is unfit.
pub uninterp spec fn rsa_oaep_plaintext(key_pem: Seq<char>, ciphertext: Seq<u8>) -> Option<
    Seq<u8>,
>;

/// `rsa::RsaPrivateKey::from_pkcs1_pem` and `RsaPrivateKey::decrypt` with
/// `Oaep::new::<sha1::Sha1>`: the plaintext is a function of the key's PEM text
/// and the ciphertext, as is whether there is one. The key's factors must be of
/// like size, or decryption may not end.
#[verifier::external_body]
fn rsa_oaep_decrypt(key_pem: &str, ciphertext: &[u8]) -> (plaintext: Option<Vec<u8>>)
    requires
        has_like_factors(key_pem@),
    ensures
        plaintext is Some <==> rsa_oaep_plaintext(key_pem@, ciphertext@) is Some,
        plaintext is Some ==> plaintext->0@ == rsa_oaep_plaintext(key_pem@, ciphertext@)->0,
{
    let key = RsaPrivateKey::from_pkcs1_pem(key_pem).ok()?;
    key.decrypt(Oaep::new::<sha1::Sha1>(), ciphertext).ok()
}

/// The signature of a message under a key that can be used.
pub open spec fn signature_of(key_pem: Seq<char>, message: Seq<u8>) -> Option<Seq<u8>> {
    if has_like_factors(key_pem) {
        rsa_signature(key_pem, message)
    } else {
        None
    }
}

fn sign(key_pem: &str, message: &[u8]) -> (signature: Option<Vec<u8>>)
    ensures
        signature is Some <==> signature_of(key_pem@, message@) is Some,
        signature is Some ==> signature->0@ == signature_of(key_pem@, message@)->0,
{
    if check_factors(key_pem) {
        rsa_sign(key_pem, message)
    } else {
        None
    }
}

/// What a key that can be used makes of a ciphertext.
pub open spec fn plaintext_of(key_pem: Seq<char>, ciphertext: Seq<u8>) -> Option<Seq<u8>> {
    if has_like_factors(key_pem) {
        rsa_oaep_plaintext(key_pem, ciphertext)
    } else {
        None
    }
}

fn decrypt(key_pem: &str, ciphertext: &[u8]) -> (plaintext: Option<Vec<u8>>)
    ensures
        plaintext is Some <==> plaintext_of(key_pem@, ciphertext@) is Some,
        plaintext is Some ==> plaintext->0@ == plaintext_of(key_pem@, ciphertext@)->0,
{
    if check_factors(key_pem) {
        rsa_oaep_decrypt(key_pem, ciphertext)
    } else {
        None
    }
}

/// The MD5 digest of some bytes.
pub uninterp spec fn md5_digest(bytes: Seq<u8>) -> Seq<u8>;

/// `md5::Md5::digest`: the digest is a function of the bytes, and 16 bytes
/// long.
#[verifier::external_body]
fn md5(bytes: &[u8]) -> (digest: Vec<u8>)
    ensures
        digest@ == md5_digest(bytes@),
        digest@.len() == 16,
{
    Md5::digest(bytes).to_vec()
}

/// `getrandom::getrandom`: eight bytes from the system's random source, or none
/// if it has none to give. Nothing is known of them.
#[verifier::external_body]
fn random_bytes() -> (bytes: Option<[u8; 8]>) {
    let mut random = [0u8; 8];
    getrandom::getrandom(&mut random).ok()?;
    Some(random)
}

/// Why an `Apple-Challenge` was not answered.
#[derive(Debug, PartialEq, Eq)]
pub enum ChallengeError {
    /// It is not valid base64.
    InvalidBase64,
    /// It decodes to more than 16 bytes.
    Oversized(usize),
    /// The receiver's key cannot sign it.
    Key,
}

impl ChallengeError {
    /// What went wrong, for the log.
    pub fn message(&self) -> (text: String)
        ensures
            text@ == (match *self {
                ChallengeError::InvalidBase64 => "Apple-Challenge is not valid base64"@,
                ChallengeError::Oversized(n) => "Apple-Challenge decodes to "@ + number::decimal(
                    n as nat,
                ) + " bytes (max 16)"@,
                ChallengeError::Key => "the AirPort key cannot sign the Apple-Challenge"@,
            }),
    {
        match self {
            ChallengeError::InvalidBase64 => "Apple-Challenge is not valid base64".to_owned(),
            ChallengeError::Oversized(n) => {
                let mut text = "Apple-Challenge decodes to ".to_owned();
                push_decimal(&mut text, *n as u64);
                text.append(" bytes (max 16)");
                text
            },
            ChallengeError::Key => "the AirPort key cannot sign the Apple-Challenge".to_owned(),
        }
    }
}

/// What is left of a base64 value to decode: senders may pad it or not, and
/// white space around it does not count.
pub open spec fn bare_base64(value: Seq<char>) -> Seq<char> {
    text::trim_end_matches_of(text::trimmed(value), '=')
}

/// The bytes that a base64 value stands for, padded or not.
pub open spec fn lenient_base64(value: Seq<char>) -> Option<Seq<u8>> {
    base64_decoded(bare_base64(value))
}

/// Decode a base64 value. Apple sends them on the standard alphabet but
/// *without* `=` padding; its presence or absence is tolerated, so that both
/// stock senders and padded encoders work.
pub fn sdp_base64(value: &str) -> (bytes: Option<Vec<u8>>)
    ensures
        bytes is Some <==> lenient_base64(value@) is Some,
        bytes is Some ==> bytes->0@ == lenient_base64(value@)->0,
{
    let chars = chars_of(value);
    let bare = string_of(trim_end_matches(trim(chars.as_slice()), '='));
    base64_decode(bare.as_str())
}

/// `bytes` with zeros after it up to `len`.
pub open spec fn zero_padded(bytes: Seq<u8>, len: int) -> Seq<u8> {
    if bytes.len() < len {
        bytes + Seq::new((len - bytes.len()) as nat, |i: int| 0u8)
    } else {
        bytes
    }
}

/// What is signed for a challenge: the challenge, the address that the client
/// connected to (4 bytes for IPv4, in disguise or not, 16 for IPv6), and our
/// MAC, zero-padded to at least 32 bytes.
pub open spec fn challenge_content(challenge: Seq<u8>, ip: IpAddr, mac: Seq<u8>) -> Seq<u8> {
    zero_padded(challenge + ip.significant() + mac, 32)
}

/// The message to sign for a decoded challenge, of at most 16 bytes.
pub fn challenge_message(challenge: &[u8], local_ip: IpAddr, mac: &[u8; 6]) -> (message: Result<
    Vec<u8>,
    ChallengeError,
>)
    ensures
        message is Ok <==> challenge@.len() <= 16,
        message is Ok ==> {
            &&& message->Ok_0@ == challenge_content(challenge@, local_ip, mac@)
            &&& 32 <= message->Ok_0@.len() <= 48
        },
        message is Err ==> message->Err_0 == ChallengeError::Oversized(challenge@.len() as usize),
{
    if challenge.len() > 16 {
        return Err(ChallengeError::Oversized(challenge.len()));
    }
    let mut buf = vstd::slice::slice_to_vec(challenge);
    buf.extend_from_slice(local_ip.significant_octets().as_slice());
    buf.extend_from_slice(mac.as_slice());
    let ghost content = challenge@ + local_ip.significant() + mac@;
    assert(buf@ =~= content);
    let ghost start = content.len();
    while buf.len() < 32
        invariant
            start == content.len(),
            start <= buf@.len() <= if start < 32 {
                32
            } else {
                start as int
            },
            buf@ == content + Seq::new((buf@.len() - start) as nat, |i: int| 0u8),
        decreases 32 - buf@.len(),
    {
        let ghost was = buf@;
        buf.push(0);
        assert(buf@ =~= content + Seq::new((buf@.len() - start) as nat, |i: int| 0u8));
    }
    assert(buf@ =~= zero_padded(content, 32));
    Ok(buf)
}

/// The answer to a challenge.
pub open spec fn challenge_answer(
    challenge_b64: Seq<char>,
    ip: IpAddr,
    mac: Seq<u8>,
    key_pem: Seq<char>,
) -> Result<Seq<char>, ChallengeError> {
    match lenient_base64(challenge_b64) {
        None => Err(ChallengeError::InvalidBase64),
        Some(challenge) => if challenge.len() > 16 {
            Err(ChallengeError::Oversized(challenge.len() as usize))
        } else {
            match signature_of(key_pem, challenge_content(challenge, ip, mac)) {
                None => Err(ChallengeError::Key),
                Some(signature) => Ok(base64_unpadded(signature)),
            }
        },
    }
}

/// Compute the `Apple-Response` value for an `Apple-Challenge`: the raw
/// PKCS#1 v1.5 signature of the challenge's message with the AirPort key,
/// base64-encoded without padding.
pub fn apple_response(
    challenge_b64: &str,
    local_ip: IpAddr,
    mac: &[u8; 6],
    key_pem: &str,
) -> (response: Result<String, ChallengeError>)
    ensures
        match response {
            Ok(value) => challenge_answer(challenge_b64@, local_ip, mac@, key_pem@) == Ok::<
                _,
                ChallengeError,
            >(value@),
            Err(e) => challenge_answer(challenge_b64@, local_ip, mac@, key_pem@) == Err::<
                Seq<char>,
                _,
            >(e),
        },
        response matches Ok(value) ==> forall|i: int|
            0 <= i < value@.len() ==> #[trigger] value@[i] != '=',
        response matches Ok(value) ==> {
            &&& lenient_base64(challenge_b64@) is Some
            &&& signature_of(
                key_pem@,
                challenge_content(lenient_base64(challenge_b64@)->0, local_ip, mac@),
            ) is Some
            &&& base64_decoded(value@) == signature_of(
                key_pem@,
                challenge_content(lenient_base64(challenge_b64@)->0, local_ip, mac@),
            )
        },
{
    let challenge = match sdp_base64(challenge_b64) {
        Some(challenge) => challenge,
        None => {
            return Err(ChallengeError::InvalidBase64);
        },
    };
    let message = match challenge_message(challenge.as_slice(), local_ip, mac) {
        Ok(message) => message,
        Err(e) => {
            return Err(e);
        },
    };
    match sign(key_pem, message.as_slice()) {
        Some(signature) => Ok(base64_encode(signature.as_slice())),
        None => Err(ChallengeError::Key),
    }
}

/// A challenge is answered alike whether its base64 is padded or not, and
/// whatever white space stands around it.
pub proof fn law_challenge_padding_does_not_matter(
    a: Seq<char>,
    b: Seq<char>,
    ip: IpAddr,
    mac: Seq<u8>,
    key_pem: Seq<char>,
)
    requires
        bare_base64(a) == bare_base64(b),
    ensures
        challenge_answer(a, ip, mac, key_pem) == challenge_answer(b, ip, mac, key_pem),
{
}

/// An IPv4 address that arrives in IPv6 disguise is answered as the IPv4
/// address that it is.
pub proof fn law_v4_mapped_addresses_answer_as_v4(
    challenge: Seq<char>,
    v4: [u8; 4],
    v6: [u8; 16],
    mac: Seq<u8>,
    key_pem: Seq<char>,
)
    requires
        crate::net::is_v4_mapped(v6@),
        v6@.skip(12) == v4@,
    ensures
        challenge_answer(challenge, IpAddr::V6(v6), mac, key_pem) == challenge_answer(
            challenge,
            IpAddr::V4(v4),
            mac,
            key_pem,
        ),
{
}

/// Why a session key was refused.
#[derive(Debug, PartialEq, Eq)]
pub enum KeyError {
    /// It does not decrypt.
    Decrypt,
    /// It decrypts to something that is not 16 bytes long.
    WrongLength(usize),
}

/// What is said of a refused key.
pub open spec fn key_error_text(e: KeyError) -> Seq<char> {
    match e {
        KeyError::Decrypt => "rsaaeskey failed RSA-OAEP decryption"@,
        KeyError::WrongLength(n) => "decrypted AES key is "@ + number::decimal(n as nat)
            + " bytes, wanted 16"@,
    }
}

impl KeyError {
    /// What went wrong, for the log.
    pub fn message(&self) -> (text: String)
        ensures
            text@ == key_error_text(*self),
    {
        match self {
            KeyError::Decrypt => "rsaaeskey failed RSA-OAEP decryption".to_owned(),
            KeyError::WrongLength(n) => {
                let mut text = "decrypted AES key is ".to_owned();
                push_decimal(&mut text, *n as u64);
                text.append(" bytes, wanted 16");
                text
            },
        }
    }
}

/// Sixteen bytes as an array.
pub fn sixteen(bytes: &[u8]) -> (array: Option<[u8; 16]>)
    ensures
        array is Some <==> bytes@.len() == 16,
        array is Some ==> array->0@ == bytes@,
{
    if bytes.len() != 16 {
        return None;
    }
    let array: [u8; 16] = [
        bytes[0],
        bytes[1],
        bytes[2],
        bytes[3],
        bytes[4],
        bytes[5],
        bytes[6],
        bytes[7],
        bytes[8],
        bytes[9],
        bytes[10],
        bytes[11],
        bytes[12],
        bytes[13],
        bytes[14],
        bytes[15],
    ];
    assert(array@ =~= bytes@);
    Some(array)
}

/// The session key that a decrypted `rsaaeskey` is: it must be 16 bytes long.
pub fn aes_key_of(plaintext: Option<Vec<u8>>) -> (key: Result<[u8; 16], KeyError>)
    ensures
        key matches Ok(k) ==> plaintext is Some && k@ == plaintext->0@,
        key is Ok <==> plaintext is Some && plaintext->0@.len() == 16,
        key matches Err(e) ==> e == (match plaintext {
            None => KeyError::Decrypt,
            Some(p) => KeyError::WrongLength(p@.len() as usize),
        }),
{
    match plaintext {
        None => Err(KeyError::Decrypt),
        Some(plaintext) => match sixteen(plaintext.as_slice()) {
            Some(key) => Ok(key),
            None => Err(KeyError::WrongLength(plaintext.len())),
        },
    }
}

/// The session key that a ciphertext wraps.
pub open spec fn unwrapped_key(ciphertext: Seq<u8>, key_pem: Seq<char>) -> Result<
    Seq<u8>,
    KeyError,
> {
    match plaintext_of(key_pem, ciphertext) {
        None => Err(KeyError::Decrypt),
        Some(plaintext) => if plaintext.len() == 16 {
            Ok(plaintext)
        } else {
            Err(KeyError::WrongLength(plaintext.len() as usize))
        },
    }
}

/// Decrypt the AES session key from an SDP `a=rsaaeskey` value.
///
/// The client RSA-OAEP-encrypts a 16-byte AES key with the AirPort *public*
/// key; the private key recovers it. OAEP uses SHA-1 for both the hash and
/// MGF1.
pub fn decrypt_aes_key(ciphertext: &[u8], key_pem: &str) -> (key: Result<[u8; 16], KeyError>)
    ensures
        match key {
            Ok(k) => unwrapped_key(ciphertext@, key_pem@) == Ok::<Seq<u8>, KeyError>(k@),
            Err(e) => unwrapped_key(ciphertext@, key_pem@) == Err::<Seq<u8>, KeyError>(e),
        },
{
    aes_key_of(decrypt(key_pem, ciphertext))
}

/// The session key and IV of an ANNOUNCE, or what is wrong with them.
pub open spec fn stream_key(
    rsaaeskey: Seq<char>,
    aesiv: Seq<char>,
    key_pem: Seq<char>,
) -> Result<(Seq<u8>, Seq<u8>), Seq<char>> {
    match lenient_base64(aesiv) {
        None => Err("aesiv is not valid base64"@),
        Some(iv) => if iv.len() != 16 {
            Err("aesiv is "@ + number::decimal(iv.len()) + " bytes, wanted 16"@)
        } else {
            match lenient_base64(rsaaeskey) {
                None => Err("rsaaeskey is not valid base64"@),
                Some(ciphertext) => match unwrapped_key(ciphertext, key_pem) {
                    Err(e) => Err(key_error_text(e)),
                    Ok(key) => Ok((key, iv)),
                },
            }
        },
    }
}

/// Decrypt the AES key (RSA-OAEP) and decode the IV (base64, 16 bytes).
pub fn decrypt_stream_key(rsaaeskey_b64: &str, aesiv_b64: &str, key_pem: &str) -> (keys: Result<
    ([u8; 16], [u8; 16]),
    String,
>)
    ensures
        match keys {
            Ok((key, iv)) => stream_key(rsaaeskey_b64@, aesiv_b64@, key_pem@) == Ok::<
                (Seq<u8>, Seq<u8>),
                Seq<char>,
            >((key@, iv@)),
            Err(e) => stream_key(rsaaeskey_b64@, aesiv_b64@, key_pem@) == Err::<
                (Seq<u8>, Seq<u8>),
                Seq<char>,
            >(e@),
        },
{
    let iv_bytes = match sdp_base64(aesiv_b64) {
        Some(bytes) => bytes,
        None => {
            return Err("aesiv is not valid base64".to_owned());
        },
    };
    let iv: [u8; 16] = match sixteen(iv_bytes.as_slice()) {
        Some(iv) => iv,
        None => {
            let mut text = "aesiv is ".to_owned();
            push_decimal(&mut text, iv_bytes.len() as u64);
            text.append(" bytes, wanted 16");
            return Err(text);
        },
    };
    let ciphertext = match sdp_base64(rsaaeskey_b64) {
        Some(bytes) => bytes,
        None => {
            return Err("rsaaeskey is not valid base64".to_owned());
        },
    };
    match decrypt_aes_key(ciphertext.as_slice(), key_pem) {
        Ok(key) => Ok((key, iv)),
        Err(e) => Err(e.message()),
    }
}

/// Some byte strings, one after another.
pub open spec fn joined(parts: Seq<&[u8]>) -> Seq<u8>
    decreases parts.len(),
{
    if parts.len() == 0 {
        Seq::empty()
    } else {
        joined(parts.drop_last()) + parts.last()@
    }
}

/// Lowercase hex of the MD5 digest of the concatenated `parts`.
pub fn md5_hex(parts: &[&[u8]]) -> (text: String)
    ensures
        text@ == number::hex(md5_digest(joined(parts@)), false),
        text@.len() == 32,
{
    let mut all: Vec<u8> = Vec::new();
    let mut i: usize = 0;
    assert(parts@.take(0) =~= Seq::<&[u8]>::empty());
    while i < parts.len()
        invariant
            i <= parts@.len(),
            all@ == joined(parts@.take(i as int)),
        decreases parts@.len() - i,
    {
        let part: &[u8] = parts[i];
        all.extend_from_slice(part);
        proof {
            assert(parts@.take(i + 1).drop_last() =~= parts@.take(i as int));
            assert(all@ =~= joined(parts@.take(i + 1)));
        }
        i += 1;
    }
    assert(parts@.take(i as int) =~= parts@);
    let digest = md5(all.as_slice());
    proof {
        number::lemma_hex_len(digest@, false);
    }
    to_hex(digest.as_slice(), false)
}

/// The lowercase hex MD5 of a text.
pub open spec fn md5_text(text: Seq<char>) -> Seq<char> {
    number::hex(md5_digest(encode_utf8(text)), false)
}

/// The RFC 2617 digest response:
///
/// ```text
/// HA1      = MD5(username ":" realm ":" password)
/// HA2      = MD5(method ":" uri)
/// response = MD5(hex(HA1) ":" nonce ":" hex(HA2))
/// ```
pub open spec fn digest_of(
    username: Seq<char>,
    realm: Seq<char>,
    password: Seq<char>,
    method: Seq<char>,
    uri: Seq<char>,
    nonce: Seq<char>,
) -> Seq<char> {
    let ha1 = md5_text(username + ":"@ + realm + ":"@ + password);
    let ha2 = md5_text(method + ":"@ + uri);
    md5_text(ha1 + ":"@ + nonce + ":"@ + ha2)
}

fn md5_of(text: &String) -> (hex: String)
    ensures
        hex@ == md5_text(text@),
        hex@.len() == 32,
{
    let bytes = text.as_str().as_bytes();
    let parts = [bytes];
    proof {
        reveal_with_fuel(joined, 2);
        assert(joined(parts@) =~= bytes@);
    }
    md5_hex(parts.as_slice())
}

/// Compute the RFC 2617 `Authorization: Digest` response for the classic
/// AirPlay 1 password.
pub fn digest_response(
    username: &str,
    realm: &str,
    password: &str,
    method: &str,
    uri: &str,
    nonce: &str,
) -> (response: String)
    ensures
        response@ == digest_of(username@, realm@, password@, method@, uri@, nonce@),
{
    let mut identity = username.to_owned();
    identity.append(":");
    identity.append(realm);
    identity.append(":");
    identity.append(password);
    let ha1 = md5_of(&identity);
    let mut target = method.to_owned();
    target.append(":");
    target.append(uri);
    let ha2 = md5_of(&target);
    let mut whole = ha1;
    whole.append(":");
    whole.append(nonce);
    whole.append(":");
    whole.append(ha2.as_str());
    md5_of(&whole)
}

/// A non-short-circuiting comparison for the digest response, so that a wrong
/// password cannot leak a byte position through timing.
pub fn ct_eq_hex(expected: &str, provided: &str) -> (same: bool)
    ensures
        same == (expected@ == provided@),
{
    let e = expected.as_bytes();
    let p = provided.as_bytes();
    proof {
        encode_utf8_decode_utf8(expected@);
        encode_utf8_decode_utf8(provided@);
    }
    if e.len() != p.len() {
        return false;
    }
    let mut acc: u8 = 0;
    let mut i: usize = 0;
    while i < e.len()
        invariant
            e@.len() == p@.len(),
            i <= e@.len(),
            acc == 0 <==> forall|j: int| 0 <= j < i ==> e@[j] == p@[j],
        decreases e@.len() - i,
    {
        let was: u8 = acc;
        let x: u8 = e[i];
        let y: u8 = p[i];
        acc = acc | (x ^ y);
        assert(acc == 0 <==> (was == 0 && x == y)) by (bit_vector)
            requires
                acc == was | (x ^ y),
        ;
        i += 1;
    }
    proof {
        if acc == 0 {
            assert(e@ =~= p@);
        }
    }
    acc == 0
}

/// The nonce made of these random bytes: their base64.
pub fn nonce_from_bytes(random: &[u8; 8]) -> (nonce: String)
    ensures
        nonce@ == base64_padded(random@),
        forall|i: int| 0 <= i < nonce@.len() ==> #[trigger] nonce@[i] != '"',
{
    base64_encode_padded(random.as_slice())
}

/// The nonce for what the system's random source gave: the nonce made of the
/// bytes, or none where it gave none.
pub fn nonce_from_source(random: Option<[u8; 8]>) -> (nonce: Option<String>)
    ensures
        nonce is Some <==> random is Some,
        nonce matches Some(n) ==> {
            &&& n@ == base64_padded(random->0@)
            &&& forall|i: int| 0 <= i < n@.len() ==> #[trigger] n@[i] != '"'
        },
{
    match random {
        Some(random) => Some(nonce_from_bytes(&random)),
        None => None,
    }
}

/// A fresh, unpredictable per-connection nonce for the `WWW-Authenticate`
/// challenge: 8 random bytes in base64. `None` if the system has no randomness
/// to give.
pub fn make_nonce() -> (nonce: Option<String>)
    ensures
        nonce matches Some(n) ==> {
            &&& exists|random: [u8; 8]| n@ == #[trigger] base64_padded(random@)
            &&& forall|i: int| 0 <= i < n@.len() ==> #[trigger] n@[i] != '"'
        },
{
    nonce_from_source(random_bytes())
}

/// Base64 is taken with or without its padding, and whatever the blanks around
/// it.
pub proof fn law_base64_needs_no_padding(
    lead: Seq<char>,
    text: Seq<char>,
    padding: nat,
    tail: Seq<char>,
)
    requires
        forall|i: int| 0 <= i < lead.len() ==> #[trigger] lead[i] == ' ',
        forall|i: int| 0 <= i < tail.len() ==> #[trigger] tail[i] == ' ',
        text.len() > 0,
        !text::is_space(text[0]),
        !text::is_space(text.last()),
        text.last() != '=',
    ensures
        lenient_base64(lead + (text + Seq::new(padding, |i: int| '=')) + tail) == base64_decoded(
            text,
        ),
{
    let padded = text + Seq::new(padding, |i: int| '=');
    assert(padded[0] == text[0]);
    if padding > 0 {
        assert(padded.last() == '=');
    } else {
        assert(padded =~= text);
    }
    text::law_trimming_takes_the_blanks_off_the_ends(lead, padded, tail);
    text::law_only_that_character_is_trimmed_off(text, '=', padding);
}

/// What is signed is the challenge, the address and the MAC, in this order, and
/// zeros behind them up to 32 bytes.
pub proof fn law_challenge_address_and_mac_are_signed(challenge: Seq<u8>, ip: IpAddr, mac: Seq<u8>)
    ensures
        ({
            let content = challenge_content(challenge, ip, mac);
            let n = challenge.len() as int;
            let m = n + ip.significant().len();
            &&& content.len() >= 32
            &&& content.len() == 32 || content.len() == m + mac.len()
            &&& m + mac.len() <= content.len()
            &&& content.subrange(0, n) == challenge
            &&& content.subrange(n, m) == ip.significant()
            &&& content.subrange(m, m + mac.len()) == mac
            &&& forall|i: int| m + mac.len() <= i < content.len() ==> #[trigger] content[i] == 0
        }),
{
    let content = challenge_content(challenge, ip, mac);
    let n = challenge.len() as int;
    let m = n + ip.significant().len();
    assert(content.subrange(0, n) =~= challenge);
    assert(content.subrange(n, m) =~= ip.significant());
    assert(content.subrange(m, m + mac.len()) =~= mac);
}

/// A challenge of up to sixteen bytes is answered with the unpadded base64 of the
/// signature; a longer one, one that is no base64, or a key that does not sign,
/// is an error of its own.
pub proof fn law_a_challenge_is_answered_by_its_signature(
    text: Seq<char>,
    challenge: Seq<u8>,
    ip: IpAddr,
    mac: Seq<u8>,
    key_pem: Seq<char>,
)
    ensures
        ({
            let answer = challenge_answer(text, ip, mac, key_pem);
            let signature = rsa_signature(key_pem, challenge_content(challenge, ip, mac));
            &&& lenient_base64(text) is None ==> answer == Err::<Seq<char>, _>(
                ChallengeError::InvalidBase64,
            )
            &&& lenient_base64(text) == Some(challenge) && 16 < challenge.len() <= usize::MAX
                ==> answer == Err::<Seq<char>, _>(
                ChallengeError::Oversized(challenge.len() as usize),
            )
            &&& lenient_base64(text) == Some(challenge) && challenge.len() <= 16
                && has_like_factors(key_pem) && signature is Some ==> answer == Ok::<
                _,
                ChallengeError,
            >(base64_unpadded(signature->0))
            &&& lenient_base64(text) == Some(challenge) && challenge.len() <= 16 && (
            !has_like_factors(key_pem) || signature is None) ==> answer == Err::<Seq<char>, _>(
                ChallengeError::Key,
            )
        }),
{
}

/// Which keys are used: those whose second factor is at most a bit longer than
/// the first, and texts that are no key, which then sign nothing.
pub proof fn law_like_factors_differ_by_a_bit(key_pem: Seq<char>)
    ensures
        rsa_factor_bits(key_pem) is None ==> has_like_factors(key_pem),
        rsa_factor_bits(key_pem) is Some ==> (has_like_factors(key_pem) <==> (rsa_factor_bits(
            key_pem,
        )->0).1 <= (rsa_factor_bits(key_pem)->0).0 + 1),
{
}

/// A stream's key is what its `rsaaeskey` decrypts to, and its IV is its `aesiv`,
/// both of sixteen bytes; nothing else makes a key.
pub proof fn law_a_stream_key_is_sixteen_bytes(
    rsaaeskey: Seq<char>,
    aesiv: Seq<char>,
    key_pem: Seq<char>,
)
    ensures
        ({
            let keys = stream_key(rsaaeskey, aesiv, key_pem);
            let ciphertext = lenient_base64(rsaaeskey);
            let iv = lenient_base64(aesiv);
            let plaintext = rsa_oaep_plaintext(key_pem, ciphertext->0);
            let usable = ciphertext is Some && iv is Some && iv->0.len() == 16
                && has_like_factors(key_pem) && plaintext is Some && plaintext->0.len() == 16;
            &&& usable ==> keys == Ok::<(Seq<u8>, Seq<u8>), Seq<char>>((plaintext->0, iv->0))
            &&& !usable ==> keys is Err
        }),
{
}

/// Parts are digested one behind the other.
pub proof fn law_parts_are_digested_in_order(parts: Seq<&[u8]>, part: &[u8])
    ensures
        joined(Seq::empty()) == Seq::<u8>::empty(),
        joined(parts.push(part)) == joined(parts) + part@,
{
    assert(parts.push(part).drop_last() =~= parts);
}

/// The answer to a password challenge is the digest of three: that of user name,
/// realm and password, the nonce, and that of method and URI, each in lower-case
/// hex, with colons between.
pub proof fn law_a_digest_is_of_password_nonce_and_request(
    username: Seq<char>,
    realm: Seq<char>,
    password: Seq<char>,
    method: Seq<char>,
    uri: Seq<char>,
    nonce: Seq<char>,
)
    ensures
        ({
            let secret = number::hex(
                md5_digest(
                    encode_utf8(
                        text::joined(seq![username, realm, password], ':'),
                    ),
                ),
                false,
            );
            let asked = number::hex(
                md5_digest(encode_utf8(text::joined(seq![method, uri], ':'))),
                false,
            );
            digest_of(username, realm, password, method, uri, nonce) == number::hex(
                md5_digest(encode_utf8(text::joined(seq![secret, nonce, asked], ':'))),
                false,
            )
        }),
{
    reveal_strlit(":");
    assert(":"@ =~= seq![':']);
    lemma_joined_by_colons(username, realm, password);
    assert(text::joined(seq![method, uri], ':') =~= method + ":"@ + uri) by {
        reveal_with_fuel(text::joined, 3);
        assert(seq![method, uri].skip(1) =~= seq![uri]);
    }
    let secret = md5_text(username + ":"@ + realm + ":"@ + password);
    let asked = md5_text(method + ":"@ + uri);
    lemma_joined_by_colons(secret, nonce, asked);
}

proof fn lemma_joined_by_colons(a: Seq<char>, b: Seq<char>, c: Seq<char>)
    ensures
        text::joined(seq![a, b, c], ':') == a + ":"@ + b + ":"@ + c,
{
    reveal_strlit(":");
    assert(":"@ =~= seq![':']);
    reveal_with_fuel(text::joined, 4);
    assert(seq![a, b, c].skip(1) =~= seq![b, c]);
    assert(seq![b, c].skip(1) =~= seq![c]);
    assert(text::joined(seq![a, b, c], ':') =~= a + ":"@ + b + ":"@ + c);
}

/// A stream key that cannot be used is refused with what is wrong with it: the IV
/// first, then the key.
pub proof fn law_a_bad_stream_key_says_why(
    rsaaeskey: Seq<char>,
    aesiv: Seq<char>,
    key_pem: Seq<char>,
)
    ensures
        ({
            let keys = stream_key(rsaaeskey, aesiv, key_pem);
            let ciphertext = lenient_base64(rsaaeskey);
            let iv = lenient_base64(aesiv);
            let plaintext = rsa_oaep_plaintext(key_pem, ciphertext->0);
            let iv_ok = iv is Some && iv->0.len() == 16;
            &&& iv is None ==> keys == Err::<(Seq<u8>, Seq<u8>), _>("aesiv is not valid base64"@)
            &&& iv is Some && iv->0.len() != 16 ==> keys == Err::<(Seq<u8>, Seq<u8>), _>(
                "aesiv is "@ + number::decimal(iv->0.len()) + " bytes, wanted 16"@,
            )
            &&& iv_ok && ciphertext is None ==> keys == Err::<(Seq<u8>, Seq<u8>), _>(
                "rsaaeskey is not valid base64"@,
            )
            &&& iv_ok && ciphertext is Some && (!has_like_factors(key_pem) || plaintext is None)
                ==> keys == Err::<(Seq<u8>, Seq<u8>), _>("rsaaeskey failed RSA-OAEP decryption"@)
            &&& iv_ok && ciphertext is Some && has_like_factors(key_pem) && plaintext is Some
                && plaintext->0.len() != 16 && plaintext->0.len() <= usize::MAX ==> keys == Err::<
                (Seq<u8>, Seq<u8>),
                _,
            >("decrypted AES key is "@ + number::decimal(plaintext->0.len()) + " bytes, wanted 16"@)
        }),
{
}

} // verus!
