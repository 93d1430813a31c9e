//! RAOP packets: audio, control, timing and sync.

use aes::cipher::{BlockEncryptMut, KeyIvInit};
use openairplay1::rtp::{
    classify_control, decrypt_audio, looks_like_alac_stereo, parse_sync, parse_timing_reply,
    resend_request, timing_request, AudioPacket, ControlKind, PT_AUDIO, PT_RESEND,
};

type Aes128CbcEnc = cbc::Encryptor<aes::Aes128>;

const KEY: [u8; 16] = [
    0x00, 0x11, 0x22, 0x33, 0x44, 0x55, 0x66, 0x77, 0x88, 0x99, 0xaa, 0xbb, 0xcc, 0xdd, 0xee,
    0xff,
];
const IV: [u8; 16] = [
    0x0f, 0x0e, 0x0d, 0x0c, 0x0b, 0x0a, 0x09, 0x08, 0x07, 0x06, 0x05, 0x04, 0x03, 0x02, 0x01,
    0x00,
];

fn encrypt(plaintext: &[u8]) -> Vec<u8> {
    let block_len = plaintext.len() & !0xf;
    let mut out = plaintext.to_vec();
    let mut cipher = Aes128CbcEnc::new(&KEY.into(), &IV.into());
    for block in out[..block_len].chunks_exact_mut(16) {
        let ga = aes::cipher::generic_array::GenericArray::from_mut_slice(block);
        cipher.encrypt_block_mut(ga);
    }
    out
}

fn audio_header(seq: u16, ts: u32) -> Vec<u8> {
    let mut h = vec![0x80, PT_AUDIO];
    h.extend_from_slice(&seq.to_be_bytes());
    h.extend_from_slice(&ts.to_be_bytes());
    h.extend_from_slice(&[0xde, 0xad, 0xbe, 0xef]); // SSRC
    h
}

#[test]
fn parses_audio_packet() {
    let mut pkt = audio_header(1234, 0x0009_A3F0);
    pkt.extend_from_slice(&[1, 2, 3, 4]);
    let parsed = AudioPacket::parse(&pkt).unwrap();
    assert_eq!(parsed.sequence, 1234);
    assert_eq!(parsed.timestamp, 0x0009_A3F0);
    assert!(!parsed.is_resend);
    assert_eq!(parsed.payload, &[1, 2, 3, 4]);
}

#[test]
fn parses_resend_packet_skipping_four_bytes() {
    let mut inner = audio_header(7, 42);
    inner.extend_from_slice(&[9, 9]);
    let mut pkt = vec![0x80, PT_RESEND, 0x00, 0x01];
    pkt.extend_from_slice(&inner);
    let parsed = AudioPacket::parse(&pkt).unwrap();
    assert_eq!(parsed.sequence, 7);
    assert!(parsed.is_resend);
    assert_eq!(parsed.payload, &[9, 9]);
}

#[test]
fn rejects_non_audio_and_short_packets() {
    assert!(AudioPacket::parse(&[0x80, 0x54, 0, 0]).is_none());
    assert!(AudioPacket::parse(&audio_header(1, 1)).is_none()); // no payload
    assert!(AudioPacket::parse(&[0x80]).is_none());
}

#[test]
fn decrypts_block_aligned_payload() {
    let plaintext: Vec<u8> = (0..32).collect();
    let cipher = encrypt(&plaintext);
    assert_ne!(cipher, plaintext);
    assert_eq!(decrypt_audio(&cipher, &KEY, &IV), plaintext);
}

#[test]
fn decrypts_payload_with_plaintext_tail() {
    // 37 bytes: two encrypted blocks (32) + a 5-byte cleartext tail.
    let plaintext: Vec<u8> = (0..37).collect();
    let cipher = encrypt(&plaintext);
    assert_eq!(
        &cipher[32..],
        &plaintext[32..],
        "tail must stay in the clear"
    );
    assert_eq!(decrypt_audio(&cipher, &KEY, &IV), plaintext);
}

#[test]
fn iv_resets_per_packet() {
    // Same plaintext encrypted twice must decrypt identically, proving
    // the IV isn't carried between calls.
    let plaintext: Vec<u8> = vec![0xAB; 48];
    let cipher = encrypt(&plaintext);
    assert_eq!(decrypt_audio(&cipher, &KEY, &IV), plaintext);
    assert_eq!(decrypt_audio(&cipher, &KEY, &IV), plaintext);
}

#[test]
fn short_payload_is_passed_through() {
    let payload = [1, 2, 3]; // < 16 bytes, no whole block
    assert_eq!(decrypt_audio(&payload, &KEY, &IV), payload);
}

#[test]
fn alac_sanity_check() {
    assert!(looks_like_alac_stereo(&[0b0010_0000, 0, 0]));
    assert!(!looks_like_alac_stereo(&[0b1110_0000]));
    assert!(!looks_like_alac_stereo(&[]));
}

#[test]
fn classifies_control_packets() {
    assert_eq!(classify_control(&[0x80, 0xd4]), Some(ControlKind::Sync));
    assert_eq!(
        classify_control(&[0x80, 0x53]),
        Some(ControlKind::TimingResponse)
    );
    assert_eq!(
        classify_control(&[0x80, 0x11]),
        Some(ControlKind::Other(0x11))
    );
}

#[test]
fn encodes_resend_request() {
    // Request 3 packets starting at seq 0x1234.
    assert_eq!(
        resend_request(0x1234, 3),
        [0x80, 0xD5, 0x00, 0x01, 0x12, 0x34, 0x00, 0x03]
    );
}

#[test]
fn encodes_timing_request() {
    let req = timing_request();
    assert_eq!(req[0], 0x80);
    assert_eq!(req[1], 0xD2);
    assert_eq!(&req[2..4], &7u16.to_be_bytes());
    assert!(req[4..].iter().all(|&b| b == 0), "NTP fields must be zero");
}

#[test]
fn parses_timing_reply() {
    let mut pkt = [0u8; 32];
    pkt[0] = 0x80;
    pkt[1] = 0xD3;
    pkt[16..20].copy_from_slice(&5u32.to_be_bytes()); // receive: 5.5 s
    pkt[20..24].copy_from_slice(&0x8000_0000u32.to_be_bytes());
    pkt[24..28].copy_from_slice(&6u32.to_be_bytes()); // transmit: 6.0 s
    let reply = parse_timing_reply(&pkt).unwrap();
    assert_eq!(reply.receive_ns, 5_500_000_000);
    assert_eq!(reply.transmit_ns, 6_000_000_000);
    assert!(parse_timing_reply(&pkt[..20]).is_none(), "too short");
}

#[test]
fn parses_sync_packet() {
    let mut pkt = [0u8; 20];
    pkt[0] = 0x80;
    pkt[1] = 0xD4;
    pkt[4..8].copy_from_slice(&1000u32.to_be_bytes()); // rtp at DAC
    pkt[8..12].copy_from_slice(&10u32.to_be_bytes()); // remote time: 10 s
    pkt[16..20].copy_from_slice(&12205u32.to_be_bytes()); // rtp current
    let sync = parse_sync(&pkt).unwrap();
    assert_eq!(sync.rtp_at_dac, 1000);
    assert_eq!(sync.remote_time_ns, 10_000_000_000);
    assert_eq!(sync.rtp_current, 12205);
    // latency = current − at_dac = 11205 frames.
    assert_eq!(sync.rtp_current - sync.rtp_at_dac, 11205);
}

#[test]
fn sync_ignores_wrong_type() {
    let pkt = [
        0x80, 0xD3, 0, 0, 0, 0, 0, 0, 0, 0, 0, 0, 0, 0, 0, 0, 0, 0, 0, 0,
    ];
    assert!(parse_sync(&pkt).is_none());
}

#[test]
fn the_marker_bit_does_not_hide_the_payload_type() {
    let mut pkt = audio_header(1, 2);
    pkt[1] |= 0x80;
    pkt.push(7);
    assert_eq!(AudioPacket::parse(&pkt).unwrap().payload, &[7]);
}

#[test]
fn a_resend_carries_the_packet_itself() {
    let mut inner = audio_header(900, 77);
    inner.extend_from_slice(&[4, 5, 6]);
    let direct = AudioPacket::parse(&inner).unwrap();
    let mut pkt = vec![0x80, PT_RESEND, 0xaa, 0xbb];
    pkt.extend_from_slice(&inner);
    let resent = AudioPacket::parse(&pkt).unwrap();
    assert_eq!(resent.sequence, direct.sequence);
    assert_eq!(resent.timestamp, direct.timestamp);
    assert_eq!(resent.payload, direct.payload);
    // A resend with nothing behind its header is no packet.
    assert!(AudioPacket::parse(&pkt[..12]).is_none());
    assert!(AudioPacket::parse(&pkt[..16]).is_none());
}

#[test]
fn decryption_depends_on_key_and_iv() {
    let cipher = encrypt(&[3u8; 16]);
    let mut other = KEY;
    other[0] ^= 1;
    assert_ne!(decrypt_audio(&cipher, &other, &IV), vec![3u8; 16]);
    assert_ne!(decrypt_audio(&cipher, &KEY, &KEY), vec![3u8; 16]);
    assert_ne!(decrypt_audio(&cipher, &KEY, &IV), cipher);
}

#[test]
fn the_other_control_packets_are_told_apart() {
    assert_eq!(classify_control(&[0x80, 0xd6]), Some(ControlKind::RetransmitResponse));
    assert_eq!(classify_control(&[0x80, 0xd2]), Some(ControlKind::TimingRequest));
    assert_eq!(classify_control(&[0x80]), None);
    assert_eq!(classify_control(&[]), None);
}

#[test]
fn a_timing_reply_of_another_type_is_none() {
    let mut pkt = [0u8; 32];
    pkt[1] = 0xD4;
    assert!(parse_timing_reply(&pkt).is_none());
    pkt[1] = 0x53;
    assert!(parse_timing_reply(&pkt).is_some());
}
