use xpbd_core::timestep_schedule::{ExpSchedule, TimestepScheduler, UniformSchedule};

#[test]
fn uniform_schedule_divides_evenly() {
    let s = UniformSchedule::new(4);
    for i in 0..4 {
        assert_eq!(s.get(i), (1, 4));
    }
}

#[test]
fn uniform_shares_sum_to_one() {
    let s = UniformSchedule::new(20);
    let total: u64 = (0..20).map(|i| s.get(i).0).sum();
    assert_eq!(total, s.get(0).1);
}

#[test]
fn exp_schedule_doubles_each_substep() {
    let s = ExpSchedule::new(3);
    assert_eq!(s.get(0), (1, 7));
    assert_eq!(s.get(1), (2, 7));
    assert_eq!(s.get(2), (4, 7));
}

#[test]
fn exp_shares_sum_to_one() {
    let s = ExpSchedule::new(10);
    let total: u64 = (0..10).map(|i| s.get(i).0).sum();
    assert_eq!(total, 1023);
    assert_eq!(s.get(9).1, 1023);
}

#[test]
fn exp_schedule_largest_size() {
    let s = ExpSchedule::new(63);
    assert_eq!(s.get(62), (1u64 << 62, u64::MAX >> 1));
    assert_eq!(s.get(0), (1, u64::MAX >> 1));
}

#[test]
fn substep_durations_as_floats() {
    let s = ExpSchedule::new(2);
    let dt: f32 = 0.3;
    let (w0, t) = s.get(0);
    let (w1, _) = s.get(1);
    let d0 = dt * w0 as f32 / t as f32;
    let d1 = dt * w1 as f32 / t as f32;
    assert!((d0 + d1 - dt).abs() < 1e-6);
    assert!(d1 > d0);
}
