//! RAOP UDP packet parsing and per-packet AES-CBC audio decryption.

use aes::cipher::block_padding::NoPadding;
use aes::cipher::{BlockDecryptMut, KeyIvInit};
use vstd::prelude::*;

use crate::clock;
use crate::clock::ntp_to_ns;

verus! {

/// RTP payload type (low 7 bits of byte 1) for realtime audio data.
pub const PT_AUDIO: u8 = 0x60;

/// RTP payload type for a retransmitted ("resend") audio packet. The real
/// audio packet is wrapped behind a 4-byte header.
pub const PT_RESEND: u8 = 0x56;

/// The big-endian 16-bit number at `at`.
pub open spec fn be16(bytes: Seq<u8>, at: int) -> int {
    bytes[at] * 0x100 + bytes[at + 1]
}

/// The big-endian 32-bit number at `at`.
pub open spec fn be32(bytes: Seq<u8>, at: int) -> int {
    be16(bytes, at) * 0x1_0000 + be16(bytes, at + 2)
}

/// The payload type of a datagram: the low seven bits of its second byte.
pub open spec fn payload_type(datagram: Seq<u8>) -> int {
    datagram[1] as int % 0x80
}

pub(crate) fn read_be16(bytes: &[u8], at: usize) -> (n: u16)
    requires
        at + 2 <= bytes.len(),
    ensures
        n == be16(bytes@, at as int),
{
    bytes[at] as u16 * 0x100 + bytes[at + 1] as u16
}

pub(crate) fn read_be32(bytes: &[u8], at: usize) -> (n: u32)
    requires
        at + 4 <= bytes.len(),
    ensures
        n == be32(bytes@, at as int),
{
    read_be16(bytes, at) as u32 * 0x1_0000 + read_be16(bytes, at + 2) as u32
}

/// A parsed audio packet: header fields plus the still-encrypted payload
/// slice within the datagram.
#[derive(Debug, PartialEq, Eq)]
pub struct AudioPacket<'a> {
    pub sequence: u16,
    pub timestamp: u32,
    pub is_resend: bool,
    pub payload: &'a [u8],
}

/// What an audio packet says, as a mathematical value.
pub struct AudioContent {
    pub sequence: u16,
    pub timestamp: u32,
    pub is_resend: bool,
    pub payload: Seq<u8>,
}

impl<'a> View for AudioPacket<'a> {
    type V = AudioContent;

    open spec fn view(&self) -> AudioContent {
        AudioContent {
            sequence: self.sequence,
            timestamp: self.timestamp,
            is_resend: self.is_resend,
            payload: self.payload@,
        }
    }
}

/// The content of an RTP packet: a 12-byte header and a payload that is not
/// empty.
pub open spec fn rtp_content(packet: Seq<u8>, is_resend: bool) -> Option<AudioContent> {
    if packet.len() <= 12 {
        None
    } else {
        Some(
            AudioContent {
                sequence: be16(packet, 2) as u16,
                timestamp: be32(packet, 4) as u32,
                is_resend,
                payload: packet.skip(12),
            },
        )
    }
}

/// The content of an audio datagram: an RTP packet, or one behind the 4-byte
/// header of a resend.
pub open spec fn audio_content(datagram: Seq<u8>) -> Option<AudioContent> {
    if datagram.len() < 12 {
        None
    } else if payload_type(datagram) == PT_AUDIO {
        rtp_content(datagram, false)
    } else if payload_type(datagram) == PT_RESEND {
        rtp_content(datagram.skip(4), true)
    } else {
        None
    }
}

impl<'a> AudioPacket<'a> {
    /// Parse a datagram from the audio socket. Returns `None` if it is no
    /// audio or resend packet, or too short to hold a payload.
    pub fn parse(datagram: &'a [u8]) -> (packet: Option<AudioPacket<'a>>)
        ensures
            packet is Some <==> audio_content(datagram@) is Some,
            packet is Some ==> packet->0@ == audio_content(datagram@)->0,
    {
        if datagram.len() < 12 {
            return None;
        }
        let pt: u8 = datagram[1] % 0x80;
        let is_resend = if pt == PT_AUDIO {
            false
        } else if pt == PT_RESEND {
            true
        } else {
            return None;
        };
        let start: usize = if is_resend {
            4
        } else {
            0
        };
        if datagram.len() <= start + 12 {
            return None;
        }
        let sequence: u16 = read_be16(datagram, start + 2);
        let timestamp: u32 = read_be32(datagram, start + 4);
        let payload = vstd::slice::slice_subrange(datagram, start + 12, datagram.len());
        proof {
            let frame = datagram@.skip(start as int);
            assert(frame =~= if is_resend {
                datagram@.skip(4)
            } else {
                datagram@
            });
            assert(payload@ =~= frame.skip(12));
        }
        Some(AudioPacket { sequence, timestamp, is_resend, payload })
    }
}

/// A retransmitted packet carries what the packet itself would have: putting
/// any 4-byte resend header in front of an audio packet changes nothing but
/// the mark.
pub proof fn law_a_resend_carries_the_packet(header: Seq<u8>, packet: Seq<u8>)
    requires
        header.len() == 4,
        payload_type(header) == PT_RESEND,
        packet.len() >= 12,
        payload_type(packet) == PT_AUDIO,
    ensures
        audio_content(header + packet) is Some <==> audio_content(packet) is Some,
        audio_content(packet) matches Some(content) ==> audio_content(header + packet) == Some(
            AudioContent { is_resend: true, ..content },
        ),
{
    assert((header + packet).skip(4) =~= packet);
}

/// An audio packet is read off its bytes: the marker bit does not matter, the
/// sequence number and timestamp are big-endian at 2 and 4, and the payload is
/// all that follows the twelve bytes of the header. A resend wraps one behind
/// four bytes. Anything else, and a packet without a payload, is none.
pub proof fn law_an_audio_packet_is_read_off_its_bytes(d: Seq<u8>)
    ensures
        d.len() > 12 && (d[1] == 0x60 || d[1] == 0xE0) ==> audio_content(d) == Some(
            AudioContent {
                sequence: (d[2] * 256 + d[3]) as u16,
                timestamp: (d[4] * 16777216 + d[5] * 65536 + d[6] * 256 + d[7]) as u32,
                is_resend: false,
                payload: d.skip(12),
            },
        ),
        d.len() > 16 && (d[1] == 0x56 || d[1] == 0xD6) ==> audio_content(d) == Some(
            AudioContent {
                sequence: (d[6] * 256 + d[7]) as u16,
                timestamp: (d[8] * 16777216 + d[9] * 65536 + d[10] * 256 + d[11]) as u32,
                is_resend: true,
                payload: d.skip(16),
            },
        ),
        audio_content(d) is Some ==> {
            ||| d.len() > 12 && (d[1] == 0x60 || d[1] == 0xE0)
            ||| d.len() > 16 && (d[1] == 0x56 || d[1] == 0xD6)
        },
{
    if d.len() > 16 {
        assert(d.skip(4).skip(12) =~= d.skip(16));
    }
}

/// What AES-128-CBC decryption without padding makes of whole blocks.
pub uninterp spec fn aes_cbc_decrypt(key: Seq<u8>, iv: Seq<u8>, blocks: Seq<u8>) -> Seq<u8>;

/// `cbc::Decryptor<aes::Aes128>` over whole 16-byte blocks: what comes out is a
/// function of the key, the IV and the blocks, and is as long as they are.
#[verifier::external_body]
fn cbc_decrypt(blocks: &[u8], key: &[u8; 16], iv: &[u8; 16]) -> (plain: Vec<u8>)
    requires
        blocks@.len() % 16 == 0,
    ensures
        plain@ == aes_cbc_decrypt(key@, iv@, blocks@),
        plain@.len() == blocks@.len(),
{
    cbc::Decryptor::<aes::Aes128>::new(key.into(), iv.into())
        .decrypt_padded_vec_mut::<NoPadding>(blocks)
        .expect("the input is whole blocks")
}

/// How much of a payload is encrypted: its whole 16-byte blocks.
pub open spec fn encrypted_len(payload: Seq<u8>) -> int {
    payload.len() - payload.len() % 16
}

/// The plaintext of a RAOP audio payload: its whole blocks decrypted from the
/// session IV, and the rest, which is sent in the clear, as it is.
pub open spec fn decrypted_audio(payload: Seq<u8>, key: Seq<u8>, iv: Seq<u8>) -> Seq<u8> {
    if encrypted_len(payload) == 0 {
        payload
    } else {
        aes_cbc_decrypt(key, iv, payload.take(encrypted_len(payload))) + payload.skip(
            encrypted_len(payload),
        )
    }
}

/// Of a payload of any length every whole 16-byte block is decrypted, in one
/// chain from the session IV; fewer than 16 bytes are left, and stay as they
/// are.
pub proof fn law_every_whole_block_is_decrypted(
    blocks: Seq<u8>,
    rest: Seq<u8>,
    n: nat,
    key: Seq<u8>,
    iv: Seq<u8>,
)
    requires
        blocks.len() == 16 * n,
        rest.len() < 16,
    ensures
        n > 0 ==> decrypted_audio(blocks + rest, key, iv) == aes_cbc_decrypt(key, iv, blocks)
            + rest,
        n > 0 ==> decrypted_audio(blocks, key, iv) == aes_cbc_decrypt(key, iv, blocks),
        n == 0 ==> decrypted_audio(blocks + rest, key, iv) == rest,
{
    let payload = blocks + rest;
    assert(payload.len() % 16 == rest.len()) by {
        vstd::arithmetic::div_mod::lemma_mod_multiples_vanish(n as int, rest.len() as int, 16);
    }
    assert(payload.take(blocks.len() as int) =~= blocks);
    assert(payload.skip(blocks.len() as int) =~= rest);
    assert(blocks.take(blocks.len() as int) =~= blocks);
    assert(blocks.skip(blocks.len() as int) =~= Seq::<u8>::empty());
    if n > 0 {
        assert(aes_cbc_decrypt(key, iv, blocks) + Seq::<u8>::empty() =~= aes_cbc_decrypt(
            key,
            iv,
            blocks,
        ));
    } else {
        assert(payload =~= rest);
    }
}

/// Decrypt a RAOP audio payload.
///
/// AES-128-CBC over only the whole 16-byte blocks, the IV reset to the session
/// `aesiv` for every packet; the trailing `len % 16` bytes are sent in the
/// clear and copied through unchanged. The plaintext ALAC frame is as long as
/// the payload.
pub fn decrypt_audio(payload: &[u8], key: &[u8; 16], iv: &[u8; 16]) -> (frame: Vec<u8>)
    ensures
        frame@ == decrypted_audio(payload@, key@, iv@),
        frame@.len() == payload@.len(),
        payload@.len() >= 16 ==> frame@ == aes_cbc_decrypt(
            key@,
            iv@,
            payload@.take(payload@.len() - payload@.len() % 16),
        ) + payload@.skip(payload@.len() - payload@.len() % 16),
        payload@.len() < 16 ==> frame@ == payload@,
{
    let block_len: usize = payload.len() - payload.len() % 16;
    if block_len == 0 {
        let frame = vstd::slice::slice_to_vec(payload);
        return frame;
    }
    let mut frame = cbc_decrypt(vstd::slice::slice_subrange(payload, 0, block_len), key, iv);
    let tail = vstd::slice::slice_subrange(payload, block_len, payload.len());
    frame.extend_from_slice(tail);
    proof {
        assert(payload@.take(block_len as int) =~= payload@.subrange(0, block_len as int));
        assert(tail@ =~= payload@.skip(block_len as int));
        assert(frame@ =~= decrypted_audio(payload@, key@, iv@));
    }
    frame
}

/// Cheap sanity check that a decrypted payload plausibly opens an ALAC
/// channel-pair element: the top three bits of byte 0 are `001`. A wrong key
/// or IV yields random-looking bytes that rarely satisfy this.
pub fn looks_like_alac_stereo(plaintext: &[u8]) -> (plausible: bool)
    ensures
        plausible == (plaintext@.len() > 0 && plaintext@[0] as int / 0x20 == 1),
{
    plaintext.len() > 0 && plaintext[0] / 0x20 == 1
}

/// Classification of a non-audio RAOP UDP packet.
#[derive(Debug, PartialEq, Eq)]
pub enum ControlKind {
    Sync,
    RetransmitResponse,
    TimingResponse,
    TimingRequest,
    Other(u8),
}

/// The kind of packet that a payload type stands for.
pub open spec fn control_kind(pt: int) -> ControlKind {
    if pt == 0x54 {
        ControlKind::Sync
    } else if pt == 0x56 {
        ControlKind::RetransmitResponse
    } else if pt == 0x53 {
        ControlKind::TimingResponse
    } else if pt == 0x52 {
        ControlKind::TimingRequest
    } else {
        ControlKind::Other(pt as u8)
    }
}

/// What arrives on the control and timing channels is told apart by its second
/// byte, with the marker bit or without.
pub proof fn law_control_packets_are_told_apart(d: Seq<u8>)
    requires
        d.len() >= 2,
    ensures
        control_kind(payload_type(d)) == (if d[1] == 0x54 || d[1] == 0xD4 {
            ControlKind::Sync
        } else if d[1] == 0x56 || d[1] == 0xD6 {
            ControlKind::RetransmitResponse
        } else if d[1] == 0x53 || d[1] == 0xD3 {
            ControlKind::TimingResponse
        } else if d[1] == 0x52 || d[1] == 0xD2 {
            ControlKind::TimingRequest
        } else {
            ControlKind::Other((d[1] as int % 128) as u8)
        }),
{
}

/// Classify a control datagram by its payload type; `None` if it is too short
/// to have one.
pub fn classify_control(datagram: &[u8]) -> (kind: Option<ControlKind>)
    ensures
        kind == (if datagram@.len() < 2 {
            None
        } else {
            Some(control_kind(payload_type(datagram@)))
        }),
{
    if datagram.len() < 2 {
        return None;
    }
    let pt: u8 = datagram[1] % 0x80;
    Some(
        if pt == 0x54 {
            ControlKind::Sync
        } else if pt == 0x56 {
            ControlKind::RetransmitResponse
        } else if pt == 0x53 {
            ControlKind::TimingResponse
        } else if pt == 0x52 {
            ControlKind::TimingRequest
        } else {
            ControlKind::Other(pt)
        },
    )
}

/// Build a RAOP retransmit ("resend") request for `count` packets starting at
/// `first`, to be sent to the client's control port: `80 D5`, our sequence
/// (always 1), the first missing sequence, and the count, all big-endian.
pub fn resend_request(first: u16, count: u16) -> (req: [u8; 8])
    ensures
        req@.take(4) == seq![0x80u8, 0xD5, 0x00, 0x01],
        be16(req@, 4) == first,
        be16(req@, 6) == count,
{
    let req = [
        0x80u8,
        0xD5,
        0x00,
        0x01,
        (first / 0x100) as u8,
        (first % 0x100) as u8,
        (count / 0x100) as u8,
        (count % 0x100) as u8,
    ];
    assert(req@.take(4) =~= seq![0x80u8, 0xD5, 0x00, 0x01]);
    req
}

/// Build an NTP timing request (`80 D2`) to send to the client's timing port.
/// All three NTP fields are zero; the client fills in its receive and transmit
/// times in the reply.
pub fn timing_request() -> (req: [u8; 32])
    ensures
        req@.take(4) == seq![0x80u8, 0xD2, 0x00, 0x07],
        forall|i: int| 4 <= i < 32 ==> #[trigger] req@[i] == 0,
{
    let req = [
        0x80u8, 0xD2, 0, 7, 0, 0, 0, 0, 0, 0, 0, 0, 0, 0, 0, 0, 0, 0, 0, 0, 0, 0, 0, 0, 0, 0, 0, 0,
        0, 0, 0, 0,
    ];
    assert(req@.take(4) =~= seq![0x80u8, 0xD2, 0x00, 0x07]);
    req
}

/// The two client-clock instants recovered from a `0xd3` timing reply, in
/// nanoseconds: receive (t2) and transmit (t3).
#[derive(Debug, PartialEq, Eq)]
pub struct TimingReply {
    pub receive_ns: u64,
    pub transmit_ns: u64,
}

/// The instant that the 32.32 NTP timestamp at `at` stands for.
pub open spec fn ntp_at(datagram: Seq<u8>, at: int) -> int {
    clock::ntp_nanos(be32(datagram, at) as u32, be32(datagram, at + 4) as u32)
}

fn read_ntp(datagram: &[u8], at: usize) -> (ns: u64)
    requires
        at + 8 <= datagram.len(),
    ensures
        ns == ntp_at(datagram@, at as int),
{
    ntp_to_ns(read_be32(datagram, at), read_be32(datagram, at + 4))
}

/// Parse a `0xd3` timing reply (32 bytes): NTP receive at byte 16 and NTP
/// transmit at byte 24.
pub fn parse_timing_reply(datagram: &[u8]) -> (reply: Option<TimingReply>)
    ensures
        reply is Some <==> datagram@.len() >= 32 && payload_type(datagram@) == 0x53,
        reply is Some ==> {
            &&& reply->0.receive_ns == ntp_at(datagram@, 16)
            &&& reply->0.transmit_ns == ntp_at(datagram@, 24)
        },
{
    if datagram.len() < 32 || datagram[1] % 0x80 != 0x53 {
        return None;
    }
    Some(
        TimingReply {
            receive_ns: read_ntp(datagram, 16),
            transmit_ns: read_ntp(datagram, 24),
        },
    )
}

/// A parsed `0xd4` sync packet.
#[derive(Debug, PartialEq, Eq)]
pub struct SyncInfo {
    /// Client-clock instant of the sync, in nanoseconds.
    pub remote_time_ns: u64,
    /// RTP timestamp at the DAC at that instant (current minus latency).
    pub rtp_at_dac: u32,
    /// The "current" RTP timestamp (latency = current minus at_dac).
    pub rtp_current: u32,
}

/// Whether a datagram is a sync packet.
pub open spec fn is_sync(datagram: Seq<u8>) -> bool {
    datagram.len() >= 20 && payload_type(datagram) == 0x54
}

/// What a sync packet says.
pub open spec fn sync_info(datagram: Seq<u8>) -> SyncInfo {
    SyncInfo {
        remote_time_ns: ntp_at(datagram, 8) as u64,
        rtp_at_dac: be32(datagram, 4) as u32,
        rtp_current: be32(datagram, 16) as u32,
    }
}

/// A sync packet is of its type, and of at least twenty bytes; nothing else is
/// one.
pub proof fn law_a_sync_packet_is_long_enough(d: Seq<u8>)
    ensures
        is_sync(d) ==> d.len() >= 20 && (d[1] == 0x54 || d[1] == 0xD4),
        d.len() >= 20 && (d[1] == 0x54 || d[1] == 0xD4) ==> is_sync(d),
{
}

/// A sync packet is read off its bytes: the timestamp at the DAC at 4, the
/// client's time as seconds at 8 and a fraction of 2^32 at 12, the current
/// timestamp at 16.
pub proof fn law_a_sync_packet_is_read_off_its_bytes(d: Seq<u8>, seconds: u32)
    requires
        d.len() >= 20,
        d[1] == 0x54 || d[1] == 0xD4,
        d[8] * 16777216 + d[9] * 65536 + d[10] * 256 + d[11] == seconds,
    ensures
        is_sync(d),
        sync_info(d).rtp_at_dac == d[4] * 16777216 + d[5] * 65536 + d[6] * 256 + d[7],
        sync_info(d).rtp_current == d[16] * 16777216 + d[17] * 65536 + d[18] * 256 + d[19],
        seconds * 1_000_000_000 <= sync_info(d).remote_time_ns < (seconds + 1) * 1_000_000_000,
        d[12] == 0 && d[13] == 0 && d[14] == 0 && d[15] == 0 ==> sync_info(d).remote_time_ns
            == seconds * 1_000_000_000,
        d[12] == 0x80 && d[13] == 0 && d[14] == 0 && d[15] == 0 ==> sync_info(d).remote_time_ns
            == seconds * 1_000_000_000 + 500_000_000,
{
}

/// Parse a `0xd4` sync packet (20 bytes): `rtp_at_dac` at byte 4, the NTP
/// `remote_time` at byte 8, `rtp_current` at byte 16.
pub fn parse_sync(datagram: &[u8]) -> (sync: Option<SyncInfo>)
    ensures
        sync == (if is_sync(datagram@) {
            Some(sync_info(datagram@))
        } else {
            None
        }),
{
    if datagram.len() < 20 || datagram[1] % 0x80 != 0x54 {
        return None;
    }
    Some(
        SyncInfo {
            remote_time_ns: read_ntp(datagram, 8),
            rtp_at_dac: read_be32(datagram, 4),
            rtp_current: read_be32(datagram, 16),
        },
    )
}

/// Numbers stand in packets with their high byte first.
pub proof fn law_numbers_stand_high_byte_first(d: Seq<u8>, at: int)
    ensures
        be16(d, at) == d[at] * 256 + d[at + 1],
        be32(d, at) == d[at] * 16777216 + d[at + 1] * 65536 + d[at + 2] * 256 + d[at + 3],
{
}

/// An NTP time in a packet is its seconds and then their fraction, in units of
/// 2^-32, to the nanosecond below.
pub proof fn law_times_stand_as_seconds_and_fraction(d: Seq<u8>, at: int, seconds: u32, fraction: u32)
    requires
        d[at] * 16777216 + d[at + 1] * 65536 + d[at + 2] * 256 + d[at + 3] == seconds,
        d[at + 4] * 16777216 + d[at + 5] * 65536 + d[at + 6] * 256 + d[at + 7] == fraction,
    ensures
        0 <= ntp_at(d, at) - seconds * 1_000_000_000 < 1_000_000_000,
        (ntp_at(d, at) - seconds * 1_000_000_000) * 0x1_0000_0000 <= fraction * 1_000_000_000,
        fraction * 1_000_000_000 < (ntp_at(d, at) - seconds * 1_000_000_000 + 1) * 0x1_0000_0000,
{
    clock::law_ntp_fractions_are_of_a_second(seconds, fraction);
    law_numbers_stand_high_byte_first(d, at);
    law_numbers_stand_high_byte_first(d, at + 4);
}

} // verus!
