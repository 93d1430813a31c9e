//! The set-up of a stream's decoder.

use openairplay1::decode::{AlacDecoder, DecodeError};
use openairplay1::sdp::AlacConfig;

fn config_from_fmtp(fmtp: &str) -> AlacConfig {
    AlacConfig::parse(&format!("96 {fmtp}")).unwrap()
}

#[test]
fn builds_decoder_from_raop_fmtp() {
    let config = config_from_fmtp("352 0 16 40 10 14 2 255 0 0 44100");
    let dec = AlacDecoder::new(&config).unwrap();
    assert_eq!(dec.channels(), 2);
    assert_eq!(dec.max_samples(), 352 * 2);
    assert_eq!(dec.params(), "352 0 16 40 10 14 2 255 0 0 44100");
}

#[test]
fn a_field_that_does_not_fit_is_refused() {
    for fmtp in [
        "352 256 16 40 10 14 2 255 0 0 44100",
        "352 0 256 40 10 14 2 255 0 0 44100",
        "352 0 16 256 10 14 2 255 0 0 44100",
        "352 0 16 40 256 14 2 255 0 0 44100",
        "352 0 16 40 10 256 2 255 0 0 44100",
        "352 0 16 40 10 14 256 255 0 0 44100",
        "352 0 16 40 10 14 2 65536 0 0 44100",
    ] {
        let refused = AlacDecoder::new(&config_from_fmtp(fmtp));
        assert_eq!(refused.err(), Some(DecodeError::Config), "{fmtp}");
    }
    let widest = config_from_fmtp("4294967295 255 255 255 255 255 255 65535 1 2 3");
    let dec = AlacDecoder::new(&widest).unwrap();
    assert_eq!(dec.max_samples(), 4_294_967_295 * 255);
}

#[test]
fn the_messages_of_decode_errors() {
    assert_eq!(DecodeError::Config.message(), "invalid ALAC configuration");
    assert_eq!(DecodeError::Packet.message(), "malformed ALAC packet");
}
