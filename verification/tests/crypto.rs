//! Challenge answers, session keys and password digests.

use std::sync::OnceLock;

use base64::engine::general_purpose::{STANDARD, STANDARD_NO_PAD};
use base64::Engine;
use openairplay1::crypto::{
    aes_key_of, apple_response, challenge_message, check_factors, ct_eq_hex, decrypt_aes_key,
    decrypt_stream_key, digest_response, make_nonce, md5_hex, nonce_from_bytes, nonce_from_source,
    sdp_base64, sixteen, ChallengeError, KeyError,
};
use openairplay1::net::IpAddr;
use rsa::pkcs1::EncodeRsaPrivateKey;
use rsa::traits::PrivateKeyParts;
use rsa::{BigUint, Oaep, Pkcs1v15Sign, RsaPrivateKey};

/// A key of the tests' own, in place of the receiver's.
fn test_key() -> &'static RsaPrivateKey {
    static KEY: OnceLock<RsaPrivateKey> = OnceLock::new();
    KEY.get_or_init(|| RsaPrivateKey::new(&mut rand::thread_rng(), 1024).unwrap())
}

fn pem() -> &'static str {
    static PEM: OnceLock<String> = OnceLock::new();
    PEM.get_or_init(|| {
        test_key()
            .to_pkcs1_pem(rsa::pkcs1::LineEnding::LF)
            .unwrap()
            .to_string()
    })
}

const MAC: [u8; 6] = [0x11, 0x22, 0x33, 0x44, 0x55, 0x66];

fn verify(challenge: &[u8], ip_bytes: &[u8], response_b64: &str) {
    let mut buf = Vec::new();
    buf.extend_from_slice(challenge);
    buf.extend_from_slice(ip_bytes);
    buf.extend_from_slice(&MAC);
    if buf.len() < 32 {
        buf.resize(32, 0);
    }
    let signature = STANDARD_NO_PAD.decode(response_b64).unwrap();
    test_key()
        .to_public_key()
        .verify(Pkcs1v15Sign::new_unprefixed(), &buf, &signature)
        .expect("Apple-Response signature must verify");
}

#[test]
fn signs_ipv4_challenge() {
    let challenge = [7u8; 16];
    let ip = IpAddr::V4([192, 168, 1, 10]);
    let resp = apple_response(&STANDARD.encode(challenge), ip, &MAC, pem()).unwrap();
    assert!(
        !resp.contains('='),
        "response must not carry base64 padding"
    );
    verify(&challenge, &[192, 168, 1, 10], &resp);
}

#[test]
fn accepts_unpadded_challenge() {
    let challenge = [1u8; 16];
    let ip = IpAddr::V4([127, 0, 0, 1]);
    let padded = STANDARD.encode(challenge);
    let unpadded = padded.trim_end_matches('=').to_string();
    assert_eq!(
        apple_response(&padded, ip, &MAC, pem()).unwrap(),
        apple_response(&unpadded, ip, &MAC, pem()).unwrap()
    );
}

#[test]
fn short_challenge_is_zero_padded_to_32() {
    let challenge = [9u8; 4];
    let ip = IpAddr::V4([10, 0, 0, 1]);
    let resp = apple_response(&STANDARD.encode(challenge), ip, &MAC, pem()).unwrap();
    verify(&challenge, &[10, 0, 0, 1], &resp);
}

#[test]
fn v4_mapped_ipv6_uses_ipv4_bytes() {
    let challenge = [3u8; 16];
    let mapped = IpAddr::V6([0, 0, 0, 0, 0, 0, 0, 0, 0, 0, 0xff, 0xff, 172, 16, 0, 2]);
    let plain = IpAddr::V4([172, 16, 0, 2]);
    let b64 = STANDARD.encode(challenge);
    assert_eq!(
        apple_response(&b64, mapped, &MAC, pem()).unwrap(),
        apple_response(&b64, plain, &MAC, pem()).unwrap()
    );
}

#[test]
fn real_ipv6_uses_all_16_bytes() {
    let challenge = [5u8; 16];
    let ip6 = [
        0xfe, 0x80, 0, 0, 0, 0, 0, 0, 0x12, 0x34, 0x56, 0x78, 0x9a, 0xbc, 0xde, 0xf0,
    ];
    let resp = apple_response(&STANDARD.encode(challenge), IpAddr::V6(ip6), &MAC, pem()).unwrap();
    verify(&challenge, &ip6, &resp);
}

#[test]
fn rejects_oversized_challenge() {
    let ip = IpAddr::V4([127, 0, 0, 1]);
    let err = apple_response(&STANDARD.encode([0u8; 17]), ip, &MAC, pem()).unwrap_err();
    assert_eq!(err, ChallengeError::Oversized(17));
}

#[test]
fn rejects_bad_base64() {
    let ip = IpAddr::V4([127, 0, 0, 1]);
    let err = apple_response("!!!not-base64!!!", ip, &MAC, pem()).unwrap_err();
    assert_eq!(err, ChallengeError::InvalidBase64);
}

#[test]
fn decrypts_oaep_wrapped_aes_key() {
    let key: [u8; 16] = [
        0x00, 0x11, 0x22, 0x33, 0x44, 0x55, 0x66, 0x77, 0x88, 0x99, 0xaa, 0xbb, 0xcc, 0xdd,
        0xee, 0xff,
    ];
    // A real client encrypts with the AirPort *public* key; do the same.
    let public = test_key().to_public_key();
    let mut rng = rand::thread_rng();
    let ciphertext = public
        .encrypt(&mut rng, Oaep::new::<sha1::Sha1>(), &key)
        .unwrap();
    assert_eq!(decrypt_aes_key(&ciphertext, pem()).unwrap(), key);
}

#[test]
fn rejects_garbage_key_ciphertext() {
    // Random bytes of the right RSA size decrypt-fail under OAEP.
    let bogus = vec![0x42u8; 256];
    assert_eq!(decrypt_aes_key(&bogus, pem()).unwrap_err(), KeyError::Decrypt);
}

#[test]
fn md5_hex_matches_known_vectors() {
    assert_eq!(md5_hex(&[]), "d41d8cd98f00b204e9800998ecf8427e");
    assert_eq!(md5_hex(&[b"abc"]), "900150983cd24fb0d6963f7d28e17f72");
}

#[test]
fn digest_response_matches_reference() {
    // Independent vector, computed by hand with Python's hashlib (not the
    // md5 crate): HA1 = MD5(dev:raop:1234), HA2 = MD5(SETUP:rtsp://…),
    // response = MD5(HA1:nonce:HA2).
    let got = digest_response(
        "dev",
        "raop",
        "1234",
        "SETUP",
        "rtsp://127.0.0.1/1",
        "NjM4MDAwMDAx",
    );
    assert_eq!(got, "556e89d3c27fc12841e76d2dc2d67dc4");
}

#[test]
fn ct_eq_hex_matches_and_differs() {
    let a = "556e89d3c27fc12841e76d2dc2d67dc4";
    let b = "556e89d3c27fc12841e76d2dc2d67dc5";
    assert!(ct_eq_hex(a, a));
    assert!(!ct_eq_hex(a, b));
    assert!(!ct_eq_hex(a, "deadbeef")); // wrong length
}

#[test]
fn session_stream_key_requires_16_byte_iv() {
    // Valid base64 but only 8 bytes.
    let err = decrypt_stream_key("AAECAwQF", &STANDARD.encode([0u8; 8]), pem()).unwrap_err();
    assert!(err.contains("aesiv is 8 bytes"), "got: {err}");
}

#[test]
fn sdp_base64_tolerates_missing_padding() {
    // Apple sends aesiv/rsaaeskey without '=' padding; both forms must
    // decode to the same 16 bytes. (This is the bug a real Mac hit.)
    let iv: [u8; 16] = std::array::from_fn(|i| i as u8);
    let padded = STANDARD.encode(iv); // "...=="
    let unpadded = padded.trim_end_matches('=');
    assert_eq!(unpadded.len(), 22, "16 bytes unpadded is 22 base64 chars");
    assert_eq!(sdp_base64(&padded).unwrap(), iv);
    assert_eq!(sdp_base64(unpadded).unwrap(), iv);
    assert_eq!(sdp_base64("  AAEC  ").unwrap(), [0, 1, 2]);
}

#[test]
fn a_stream_key_is_unwrapped_and_its_faults_are_named() {
    let aes = [9u8; 16];
    let wrapped = test_key()
        .to_public_key()
        .encrypt(&mut rand::thread_rng(), Oaep::new::<sha1::Sha1>(), &aes)
        .unwrap();
    let wrapped = STANDARD_NO_PAD.encode(wrapped);
    let iv = STANDARD.encode([5u8; 16]);
    assert_eq!(
        decrypt_stream_key(&wrapped, &iv, pem()),
        Ok((aes, [5u8; 16]))
    );
    assert_eq!(
        decrypt_stream_key(&wrapped, "?", pem()),
        Err("aesiv is not valid base64".to_string())
    );
    assert_eq!(
        decrypt_stream_key("?", &iv, pem()),
        Err("rsaaeskey is not valid base64".to_string())
    );
    assert_eq!(
        decrypt_stream_key("AAEC", &iv, pem()),
        Err("rsaaeskey failed RSA-OAEP decryption".to_string())
    );
    assert_eq!(
        decrypt_stream_key(&wrapped, "AAEC", pem()),
        Err("aesiv is 3 bytes, wanted 16".to_string())
    );
    let short = test_key()
        .to_public_key()
        .encrypt(&mut rand::thread_rng(), Oaep::new::<sha1::Sha1>(), &[1, 2])
        .unwrap();
    assert_eq!(
        decrypt_aes_key(&short, pem()),
        Err(KeyError::WrongLength(2))
    );
}

#[test]
fn a_decrypted_key_must_be_sixteen_bytes() {
    assert_eq!(aes_key_of(Some(vec![1u8; 16])), Ok([1u8; 16]));
    assert_eq!(aes_key_of(Some(vec![1u8; 15])), Err(KeyError::WrongLength(15)));
    assert_eq!(aes_key_of(None), Err(KeyError::Decrypt));
    assert_eq!(sixteen(&[0u8; 17]), None);
}

#[test]
fn the_signed_message_is_challenge_address_and_mac() {
    let message = challenge_message(&[1, 2], IpAddr::V4([3, 4, 5, 6]), &MAC).unwrap();
    let mut expected = vec![1, 2, 3, 4, 5, 6, 0x11, 0x22, 0x33, 0x44, 0x55, 0x66];
    expected.resize(32, 0);
    assert_eq!(message, expected);
    let long = challenge_message(&[7u8; 16], IpAddr::V6([8u8; 16]), &MAC).unwrap();
    assert_eq!(long.len(), 38);
}

#[test]
fn a_text_that_is_no_key_signs_nothing() {
    let ip = IpAddr::V4([127, 0, 0, 1]);
    assert_eq!(
        apple_response("AAEC", ip, &MAC, "no key"),
        Err(ChallengeError::Key)
    );
}

#[test]
fn errors_say_what_is_wrong() {
    assert_eq!(
        ChallengeError::InvalidBase64.message(),
        "Apple-Challenge is not valid base64"
    );
    assert_eq!(
        ChallengeError::Oversized(17).message(),
        "Apple-Challenge decodes to 17 bytes (max 16)"
    );
    assert_eq!(
        ChallengeError::Key.message(),
        "the AirPort key cannot sign the Apple-Challenge"
    );
    assert_eq!(
        KeyError::Decrypt.message(),
        "rsaaeskey failed RSA-OAEP decryption"
    );
    assert_eq!(
        KeyError::WrongLength(3).message(),
        "decrypted AES key is 3 bytes, wanted 16"
    );
}

#[test]
fn nonces_are_base64_and_fresh() {
    assert_eq!(nonce_from_bytes(&[0, 1, 2, 3, 4, 5, 6, 7]), "AAECAwQFBgc=");
    assert_eq!(
        nonce_from_source(Some([0, 1, 2, 3, 4, 5, 6, 7])),
        Some("AAECAwQFBgc=".to_string())
    );
    assert_eq!(nonce_from_source(None), None);
    let a = make_nonce().unwrap();
    let b = make_nonce().unwrap();
    assert_ne!(a, b);
    assert_eq!(STANDARD.decode(&a).unwrap().len(), 8);
}

#[test]
fn a_key_with_lopsided_factors_is_not_used() {
    assert!(check_factors(pem()));
    assert!(check_factors("no key"));

    let text = |primes: Vec<BigUint>| {
        let key = RsaPrivateKey::from_primes(primes, BigUint::from(65537u32)).unwrap();
        key.to_pkcs1_pem(rsa::pkcs1::LineEnding::LF)
            .unwrap()
            .to_string()
    };
    let large = test_key().primes()[0].clone();
    let small = BigUint::from(3u32);
    let ip = IpAddr::V4([192, 168, 1, 10]);
    let challenge = STANDARD.encode([7u8; 16]);

    // A second factor that dwarfs the first.
    let lopsided = text(vec![small.clone(), large.clone()]);
    assert!(!check_factors(&lopsided));
    assert_eq!(apple_response(&challenge, ip, &MAC, &lopsided), Err(ChallengeError::Key));
    assert_eq!(decrypt_aes_key(&[1; 65], &lopsided), Err(KeyError::Decrypt));

    // The other way round it is as good as any.
    let usable = text(vec![large, small]);
    assert!(check_factors(&usable));
    assert!(apple_response(&challenge, ip, &MAC, &usable).is_ok());
}
