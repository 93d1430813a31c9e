//! The clock model: NTP stamps, offsets and play times.

use openairplay1::clock::{ns_to_ntp, ntp_to_ns, ClockModel, WINDOW};

#[test]
fn ntp_ns_round_trips() {
    for ns in [
        0u64,
        1,
        1_000_000_000,
        1_234_567_891,
        3_912_345_678_000_000_000,
    ] {
        let (s, f) = ns_to_ntp(ns);
        let back = ntp_to_ns(s, f);
        // Fixed-point fraction loses sub-nanosecond precision; within 1 ns.
        assert!(back.abs_diff(ns) <= 1, "ns={ns} back={back}");
    }
}

#[test]
fn ntp_half_second_is_max_fraction() {
    assert_eq!(ntp_to_ns(0, 0x8000_0000), 500_000_000);
    assert_eq!(ntp_to_ns(5, 0), 5_000_000_000);
}

#[test]
fn offset_from_symmetric_exchange() {
    // Remote clock is exactly 1_000_000_000 ns ahead of local. Symmetric
    // 10 ms each way, remote takes 2 ms to turn around.
    let offset = 1_000_000_000i128;
    let t1 = 100_000_000u64; // local send
    let t2 = (t1 as i128 + offset + 10_000_000) as u64; // remote receive
    let t3 = t2 + 2_000_000; // remote transmit
    let t4 = t1 + 10_000_000 + 2_000_000 + 10_000_000; // local arrival
    let mut m = ClockModel::new(44100);
    m.add_timing(t1, t2, t3, t4);
    // rtt = 22ms - 2ms = 20ms; remote_at_t4 = t3 + 10ms; offset ≈ 1e9.
    let est = m.offset_ns().unwrap();
    assert!((est - offset).abs() < 1_000, "offset estimate {est}");
}

#[test]
fn picks_lowest_rtt_sample() {
    let mut m = ClockModel::new(44100);
    // A high-RTT (noisy) exchange with a skewed offset...
    m.add_timing(
        0,
        1_000_000_000 + 40_000_000,
        1_000_000_000 + 41_000_000,
        100_000_000,
    );
    let noisy = m.offset_ns().unwrap();
    // ...then a clean low-RTT exchange with offset ~1e9.
    m.add_timing(
        200_000_000,
        200_000_000 + 1_000_000_000 + 1_000_000,
        200_000_000 + 1_000_000_000 + 1_100_000,
        200_000_000 + 2_100_000,
    );
    let best = m.offset_ns().unwrap();
    assert_ne!(best, noisy);
    assert!((best - 1_000_000_000).abs() < 200_000, "best {best}");
}

#[test]
fn rejects_malformed_exchange() {
    let mut m = ClockModel::new(44100);
    m.add_timing(100, 50, 40, 200); // t3 < t2
    assert!(m.offset_ns().is_none());
}

#[test]
fn not_ready_without_both_offset_and_anchor() {
    let mut m = ClockModel::new(44100);
    assert!(!m.is_ready());
    m.add_timing(0, 1_000_000_000, 1_000_100_000, 200_000);
    assert!(!m.is_ready(), "offset alone is not enough");
    m.set_anchor(2_000_000_000, 1000);
    assert!(m.is_ready());
}

#[test]
fn play_time_advances_with_rtp() {
    let mut m = ClockModel::new(44100);
    // Zero offset for simple arithmetic.
    m.add_timing(0, 1_000_000, 1_000_000, 2_000_000); // rtt tiny, offset≈ -1ms? keep simple
    m.set_anchor(10_000_000_000, 1000);
    let base = m.play_time(1000).unwrap();
    // One frame later = 1/44100 s ≈ 22676 ns later.
    let next = m.play_time(1001).unwrap();
    assert_eq!(next - base, 1_000_000_000 / 44100);
    // 44100 frames later = exactly one second later.
    let one_sec = m.play_time(1000 + 44100).unwrap();
    assert_eq!(one_sec - base, 1_000_000_000);
}

#[test]
fn play_time_handles_rtp_wrap() {
    let mut m = ClockModel::new(44100);
    m.set_anchor(10_000_000_000, u32::MAX - 1); // anchor near wrap
    m.add_timing(0, 0, 0, 0); // zero offset
    let before = m.play_time(u32::MAX - 1).unwrap();
    // Two frames past the anchor wraps u32 to 0.
    let after = m.play_time(0).unwrap();
    // Single-expression division (as the implementation does it).
    assert_eq!(after - before, 2 * 1_000_000_000 / 44100);
}

#[test]
fn play_time_none_until_ready() {
    let mut m = ClockModel::new(44100);
    assert_eq!(m.play_time(1000), None);
    m.set_anchor(1_000_000_000, 0);
    assert_eq!(m.play_time(1000), None, "still needs an offset");
}

#[test]
fn ntp_stamps_have_exact_values() {
    assert_eq!(ns_to_ntp(1_500_000_000), (1, 0x8000_0000));
    assert_eq!(ntp_to_ns(0, 1), 0);
    assert_eq!(ntp_to_ns(1, 0xffff_ffff), 1_999_999_999);
    assert_eq!(
        ntp_to_ns(u32::MAX, u32::MAX),
        4_294_967_295_999_999_999
    );
}

#[test]
fn a_symmetric_exchange_measures_the_offset_exactly() {
    let mut m = ClockModel::new(44100);
    m.add_timing(100, 1_110, 1_112, 122);
    assert_eq!(m.offset_ns(), Some(1_000));
}

#[test]
fn a_reply_faster_than_its_own_processing_is_ignored() {
    let mut m = ClockModel::new(44100);
    m.add_timing(100, 200, 350, 240); // ten less than the remote processing
    assert_eq!(m.offset_ns(), None);
    m.add_timing(100, 200, 300, 90); // arrives before it was sent
    assert_eq!(m.offset_ns(), None);
}

#[test]
fn the_window_forgets_the_oldest_exchange() {
    let mut m = ClockModel::new(44100);
    m.add_timing(0, 5_000, 5_000, 2); // the best round trip: two
    assert_eq!(m.offset_ns(), Some(4_999));
    for _ in 0..WINDOW - 1 {
        m.add_timing(0, 7_000, 7_000, 10);
        assert_eq!(m.offset_ns(), Some(4_999));
    }
    m.add_timing(0, 7_000, 7_000, 10);
    assert_eq!(m.offset_ns(), Some(6_995));
}

#[test]
fn the_earliest_of_equal_round_trips_wins() {
    let mut m = ClockModel::new(44100);
    m.add_timing(0, 100, 100, 10);
    m.add_timing(0, 900, 900, 10);
    assert_eq!(m.offset_ns(), Some(95));
}

#[test]
fn a_play_time_before_the_epoch_is_none() {
    let mut m = ClockModel::new(44100);
    m.add_timing(0, 0, 0, 0);
    m.set_anchor(1_000, 44100);
    assert_eq!(m.play_time(0), None);
    assert_eq!(m.play_time(44100), Some(1_000));
    // Division rounds toward zero on either side of the anchor.
    m.set_anchor(1_000_000, 10);
    assert_eq!(m.play_time(9), Some(1_000_000 - 22_675));
}
