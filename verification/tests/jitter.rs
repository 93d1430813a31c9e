//! The jitter buffer: in order, across the wrap, past a gap.

use openairplay1::jitter::{seq_diff, seq_next, Delivery, JitterBuffer, CAPACITY, MAX_LEAD};

fn frame(tag: u8) -> Vec<u8> {
    vec![tag]
}

fn pkt(seq: u16, tag: u8) -> Delivery {
    Delivery::Packet {
        seq,
        frame: frame(tag),
    }
}

#[test]
fn seq_diff_handles_wrap() {
    assert_eq!(seq_diff(5, 3), 2);
    assert_eq!(seq_diff(3, 5), -2);
    assert_eq!(seq_diff(0, 0xFFFF), 1);
    assert_eq!(seq_diff(0xFFFF, 0), -1);
    assert_eq!(seq_diff(1, 0xFFFE), 3);
}

#[test]
fn in_order_passthrough() {
    let mut jb = JitterBuffer::default();
    jb.insert(10, frame(1));
    jb.insert(11, frame(2));
    assert_eq!(jb.pop_ready(), vec![pkt(10, 1), pkt(11, 2)]);
    assert_eq!(jb.pop_ready(), vec![]);
}

#[test]
fn reorders_before_delivery() {
    let mut jb = JitterBuffer::default();
    jb.insert(10, frame(1));
    jb.insert(12, frame(3)); // arrives before 11
    assert_eq!(jb.pop_ready(), vec![pkt(10, 1)]); // 11 missing, hold
    jb.insert(11, frame(2));
    assert_eq!(jb.pop_ready(), vec![pkt(11, 2), pkt(12, 3)]);
}

#[test]
fn drops_duplicate_and_late_packets() {
    let mut jb = JitterBuffer::default();
    jb.insert(10, frame(1));
    assert_eq!(jb.pop_ready(), vec![pkt(10, 1)]);
    // 10 already delivered (next_seq is now 11); re-inserting is ignored.
    jb.insert(10, frame(9));
    jb.insert(11, frame(2));
    assert_eq!(jb.pop_ready(), vec![pkt(11, 2)]);
}

#[test]
fn reports_missing_sequences() {
    let mut jb = JitterBuffer::default();
    jb.insert(10, frame(1));
    jb.insert(13, frame(4)); // 11, 12 missing
    assert_eq!(jb.missing(), vec![11, 12]);
    jb.insert(11, frame(2));
    assert_eq!(jb.missing(), vec![12]);
}

#[test]
fn forced_skip_when_too_far_ahead() {
    let mut jb = JitterBuffer::new(4);
    jb.insert(10, frame(1));
    assert_eq!(jb.pop_ready(), vec![pkt(10, 1)]);
    // 11 never arrives; 12,13,14,15 do. Lead reaches max_lead=4 → skip 11.
    for s in [12, 13, 14, 15] {
        jb.insert(s, frame(s as u8));
    }
    let out = jb.pop_ready();
    assert_eq!(
        out[0],
        Delivery::Lost { seq: 11 },
        "missing 11 is concealed"
    );
    assert_eq!(
        &out[1..],
        &[pkt(12, 12), pkt(13, 13), pkt(14, 14), pkt(15, 15)]
    );
}

#[test]
fn delivers_across_u16_wrap() {
    let mut jb = JitterBuffer::default();
    jb.insert(0xFFFE, frame(1));
    jb.insert(0xFFFF, frame(2));
    jb.insert(0x0000, frame(3));
    jb.insert(0x0001, frame(4));
    assert_eq!(
        jb.pop_ready(),
        vec![
            pkt(0xFFFE, 1),
            pkt(0xFFFF, 2),
            pkt(0x0000, 3),
            pkt(0x0001, 4),
        ]
    );
}

#[test]
fn missing_across_wrap() {
    let mut jb = JitterBuffer::default();
    jb.insert(0xFFFF, frame(1));
    jb.insert(0x0001, frame(3)); // 0x0000 missing
    assert_eq!(jb.missing(), vec![0x0000]);
}

#[test]
fn a_permanent_gap_is_skipped_so_playback_resumes() {
    // The stall a real iPhone triggers: FLUSH re-arms the buffer at a
    // sequence the sender has already sent and will not send again, so
    // the packet at the front never arrives. Everything after it must
    // still reach the player.
    let mut jb = JitterBuffer::default();
    jb.reset(Some(1000));
    for i in 1..=2000u16 {
        jb.insert(1000 + i, frame(1));
    }
    let delivered = jb.pop_ready();
    assert!(
        !delivered.is_empty(),
        "a gap the sender never fills must not stall the stream forever"
    );
}

#[test]
fn reset_drops_buffered_audio() {
    let mut jb = JitterBuffer::default();
    jb.insert(10, frame(1));
    jb.insert(11, frame(2));
    jb.reset(Some(100));
    assert_eq!(jb.pop_ready(), vec![]);
    jb.insert(100, frame(7));
    assert_eq!(jb.pop_ready(), vec![pkt(100, 7)]);
}

#[test]
fn sequences_wrap() {
    assert_eq!(seq_next(7), 8);
    assert_eq!(seq_next(0xFFFF), 0);
    assert_eq!(seq_diff(0x8000, 0), -0x8000);
    assert_eq!(seq_diff(0, 0x8000), -0x8000);
}

#[test]
fn arrival_order_does_not_matter() {
    let mut forward = JitterBuffer::new(MAX_LEAD);
    let mut backward = JitterBuffer::new(MAX_LEAD);
    forward.reset(Some(20));
    backward.reset(Some(20));
    for s in [20u16, 21, 22, 23] {
        forward.insert(s, frame(s as u8));
    }
    for s in [23u16, 22, 21, 20] {
        backward.insert(s, frame(s as u8));
    }
    assert_eq!(forward.pop_ready(), backward.pop_ready());
}

#[test]
fn a_packet_a_ring_ahead_is_dropped() {
    let mut jb = JitterBuffer::default();
    jb.insert(10, frame(1));
    jb.insert(10 + CAPACITY as u16, frame(2));
    assert_eq!(jb.missing(), Vec::<u16>::new());
    assert_eq!(jb.pop_ready(), vec![pkt(10, 1)]);
    assert_eq!(jb.pop_ready(), vec![]);
}

#[test]
fn a_later_copy_replaces_a_packet_that_waits() {
    let mut jb = JitterBuffer::default();
    jb.insert(10, frame(1));
    jb.insert(10, frame(2));
    assert_eq!(jb.pop_ready(), vec![pkt(10, 2)]);
}

#[test]
fn a_gap_at_the_lead_is_lost_and_one_short_of_it_is_held() {
    let mut jb = JitterBuffer::new(4);
    jb.reset(Some(0));
    for s in [1u16, 2, 3] {
        jb.insert(s, frame(s as u8));
    }
    assert_eq!(jb.pop_ready(), vec![], "a lead of three is not enough");
    jb.insert(4, frame(4));
    assert_eq!(jb.pop_ready()[0], Delivery::Lost { seq: 0 });
    assert_eq!(jb.missing(), Vec::<u16>::new());
}

#[test]
fn a_buffer_without_an_anchor_has_nothing_missing() {
    let mut jb = JitterBuffer::default();
    assert_eq!(jb.missing(), Vec::<u16>::new());
    assert_eq!(jb.pop_ready(), vec![]);
    jb.reset(Some(9));
    assert_eq!(jb.missing(), Vec::<u16>::new());
}
