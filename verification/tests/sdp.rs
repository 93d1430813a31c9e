//! SDP bodies and ALAC configurations.

use openairplay1::sdp::{AlacConfig, Sdp};

const BODY: &str = "v=0\r\n\
    o=iTunes 3413821438 0 IN IP4 192.168.1.2\r\n\
    s=iTunes\r\n\
    c=IN IP4 192.168.1.10\r\n\
    t=0 0\r\n\
    m=audio 0 RTP/AVP 96\r\n\
    a=rtpmap:96 AppleLossless\r\n\
    a=fmtp:96 352 0 16 40 10 14 2 255 0 0 44100\r\n\
    a=rsaaeskey:AAECAwQF\r\n\
    a=aesiv:BgcICQoL\r\n\
    a=min-latency:11025\r\n";

#[test]
fn parses_all_fields() {
    let sdp = Sdp::parse(BODY);
    assert_eq!(sdp.rtpmap.as_deref(), Some("96 AppleLossless"));
    assert_eq!(
        sdp.fmtp.as_deref(),
        Some("96 352 0 16 40 10 14 2 255 0 0 44100")
    );
    assert_eq!(sdp.rsaaeskey.as_deref(), Some("AAECAwQF"));
    assert_eq!(sdp.aesiv.as_deref(), Some("BgcICQoL"));
    assert_eq!(sdp.min_latency, Some(11025));
}

#[test]
fn unencrypted_body_has_no_keys() {
    let body = "v=0\na=rtpmap:96 AppleLossless\na=fmtp:96 352 0 16 40 10 14 2 255 0 0 44100\n";
    let sdp = Sdp::parse(body);
    assert!(sdp.rsaaeskey.is_none() && sdp.aesiv.is_none());
    assert!(sdp.fmtp.is_some());
}

#[test]
fn parses_alac_config() {
    let sdp = Sdp::parse(BODY);
    let alac = AlacConfig::parse(sdp.fmtp.as_deref().unwrap()).unwrap();
    assert_eq!(alac.frames_per_packet, 352);
    assert_eq!(alac.bit_depth, 16);
    assert_eq!(alac.channels, 2);
    assert_eq!(alac.sample_rate, 44100);
    assert_eq!(alac.raw[0], 96);
}

#[test]
fn rejects_short_fmtp() {
    assert!(AlacConfig::parse("96 352 0 16").is_none());
    assert!(AlacConfig::parse("96 352 x 16 40 10 14 2 255 0 0 44100").is_none());
}

#[test]
fn the_last_attribute_of_a_name_counts() {
    let sdp = Sdp::parse("a=fmtp:one\na=fmtp:  two  \na=aesiv:x:y\n");
    assert_eq!(sdp.fmtp.as_deref(), Some("two"));
    assert_eq!(sdp.aesiv.as_deref(), Some("x:y"));
}

#[test]
fn lines_that_are_no_attributes_are_ignored() {
    let sdp = Sdp::parse("fmtp:1\n a=fmtp:2\na=fmtp\nA=fmtp:3\na=FMTP:4\n");
    assert_eq!(sdp.fmtp, None);
    assert_eq!(Sdp::parse(""), Sdp::parse("v=0\n"));
}

#[test]
fn a_latency_that_is_no_number_is_none() {
    assert_eq!(Sdp::parse("a=min-latency:x").min_latency, None);
    assert_eq!(Sdp::parse("a=min-latency:1\na=min-latency:x").min_latency, None);
    assert_eq!(Sdp::parse("a=min-latency:+7").min_latency, Some(7));
    assert_eq!(Sdp::parse("a=min-latency:4294967296").min_latency, None);
}

#[test]
fn numbers_after_the_twelfth_are_ignored() {
    let config = AlacConfig::parse("96 352 0 272 40 10 14 258 255 0 0 44100 junk").unwrap();
    assert_eq!(config.bit_depth, 16, "the low byte");
    assert_eq!(config.channels, 2, "the low byte");
    assert_eq!(config.raw[3], 272);
}
