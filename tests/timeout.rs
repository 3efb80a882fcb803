use gbft::timeout::{Step, TimeoutPolicy, TimeoutScheduler, TimerHandle};

#[test]
fn backoff_doubles_until_the_cap() {
    let p = TimeoutPolicy { base: 100, factor: 2, max: 1000 };
    let got: Vec<u64> = (0..7).map(|r| p.duration(r)).collect();
    assert_eq!(got, vec![100, 200, 400, 800, 1000, 1000, 1000]);
    assert_eq!(p.duration(u64::MAX / 2), 1000);
    let q = TimeoutPolicy { base: 3, factor: 3, max: u64::MAX };
    assert_eq!(q.duration(4), 243);
    assert_eq!(q.duration(60), u64::MAX);
}

#[test]
fn stale_firings_are_ignored() {
    let mut s = TimeoutScheduler::new();
    let h = s.arm(4, 0, Step::Propose);
    assert_eq!(h, TimerHandle { height: 4, round: 0, step: Step::Propose });
    assert_eq!(s.cancel(), Some(h));
    let h2 = s.arm(4, 1, Step::Propose);
    assert!(!s.fire(h));
    assert!(s.fire(h2));
    assert!(!s.fire(h2));
    assert_eq!(s.cancel(), None);
}
