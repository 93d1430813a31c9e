//! Drift correction.

use openairplay1::alsa_sink::{drift_action, DriftCorrector, CHECK_EVERY};

#[test]
fn alsa_sink_drift_action_steers_toward_target() {
    let target = 8820;
    let thr = 441; // 10 ms at 44100
    assert_eq!(drift_action(target, target, thr), 0, "on target: hold");
    assert_eq!(
        drift_action(target + 100, target, thr),
        0,
        "within band: hold"
    );
    assert_eq!(
        drift_action(target - 100, target, thr),
        0,
        "within band: hold"
    );
    assert_eq!(
        drift_action(target - 500, target, thr),
        1,
        "too shallow: insert"
    );
    assert_eq!(
        drift_action(target + 500, target, thr),
        -1,
        "too deep: drop"
    );
}

#[test]
fn player_drift_action_steers_toward_target() {
    let target = 8820;
    let thr = 441; // 10 ms at 44100
    assert_eq!(drift_action(target, target, thr), 0, "on target: hold");
    assert_eq!(
        drift_action(target + 100, target, thr),
        0,
        "within band: hold"
    );
    assert_eq!(
        drift_action(target - 100, target, thr),
        0,
        "within band: hold"
    );
    assert_eq!(
        drift_action(target - 500, target, thr),
        1,
        "too shallow: insert"
    );
    assert_eq!(
        drift_action(target + 500, target, thr),
        -1,
        "too deep: drop"
    );
}

#[test]
fn the_queue_is_looked_at_every_so_often() {
    let mut corrector = DriftCorrector::new(44100, 2);
    assert!(!corrector.on_write(), "the released prebuffer");
    for round in 0..2 {
        for i in 1..CHECK_EVERY {
            assert!(!corrector.on_write(), "round {round}, write {i}");
        }
        assert!(corrector.on_write());
    }
    corrector.on_flush();
    assert!(!corrector.on_write());
}

#[test]
fn a_correction_is_one_frame() {
    let corrector = DriftCorrector::new(44100, 2);
    let correct = |depth: i64| {
        let mut chunk = vec![1i16, 2, 3, 4];
        corrector.correct(&mut chunk, depth);
        chunk
    };
    assert_eq!(correct(8820), vec![1, 2, 3, 4]);
    assert_eq!(correct(8820 - 441), vec![1, 2, 3, 4]);
    assert_eq!(correct(8820 - 442), vec![1, 2, 3, 4, 3, 4]);
    assert_eq!(correct(8820 + 442), vec![1, 2]);
    let mut short = vec![1i16];
    corrector.correct(&mut short, 0);
    assert_eq!(short, vec![1]);
}
